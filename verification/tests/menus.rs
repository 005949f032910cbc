use recupe_ghost::cli::{
    batch_warning, found_listing, interrupted, scan_outcome, source_is_usable, BatchWarning,
    CliArgs, RunMode, ScanOutcome,
};
use recupe_ghost::clone::CloneState;
use recupe_ghost::drives::DriveInfo;
use recupe_ghost::recovery::RecoveryState;
use recupe_ghost::scanner::assemble::ScanResult;
use recupe_ghost::scanner::source_size::{get_source_size, SizeError};
use recupe_ghost::scanner::{FoundFile, ScanState};
use recupe_ghost::signatures::{all_signatures, FileCategory};
use recupe_ghost::ui::menus::{
    category_line, default_image_name, default_output_name, support_link, Question,
};
use recupe_ghost::ui::sources::{
    drive_entries, image_entry, is_image_extension, prompt_path_or_cancel, select_all_drives,
    select_image_file, select_removable_drive, select_source, show_drive_list, trim_answer,
    ImageChoice, PathAnswer, SourceStep,
};
use recupe_ghost::ui::{clone_menu, main_menu, scan_menu, scan_menu_with_source, MainMenuChoice};

fn drive(path: &str, name: &str, mounts: &[&str]) -> DriveInfo {
    DriveInfo {
        path: path.to_string(),
        display_name: name.to_string(),
        letter: None,
        all_mounts: mounts.iter().map(|m| m.to_string()).collect(),
        size_bytes: 0,
        is_removable: false,
    }
}

#[test]
fn the_main_menu_leads_where_it_says() {
    assert_eq!(main_menu(0), MainMenuChoice::Scan);
    assert_eq!(main_menu(1), MainMenuChoice::Clone);
    assert_eq!(main_menu(2), MainMenuChoice::About);
    assert_eq!(main_menu(3), MainMenuChoice::Exit);
    assert_eq!(main_menu(99), MainMenuChoice::Exit);
    assert!(support_link(Some(0)).unwrap().contains("youtube"));
    assert!(support_link(Some(1)).unwrap().contains("facebook"));
    assert!(support_link(Some(2)).is_none() && support_link(None).is_none());
}

#[test]
fn a_scan_is_set_up_question_by_question() {
    let mut menu = scan_menu();
    assert_eq!(menu.question, Question::Source);
    menu.choose_source(Some("/dev/sdb".to_string()));
    menu.check_rights(false);
    assert_eq!(menu.question, Question::GoOnAnyway);
    menu.go_on_anyway(0);
    menu.choose_types(&[3, 0, 7]);
    menu.choose_output("/home/yo/salida".to_string());
    assert_eq!(menu.question, Question::Confirm);
    menu.confirm(true);
    let config = menu.finish().unwrap();
    assert_eq!(config.source_path, "/dev/sdb");
    assert_eq!(config.output_dir, "/home/yo/salida");
    assert_eq!(
        config.categories,
        vec![FileCategory::Document, FileCategory::Photo]
    );
    assert_eq!(category_line(&config.categories), "📄 Documento, 📷 Foto");
}

#[test]
fn a_scan_menu_can_be_left_at_every_question() {
    let mut menu = scan_menu();
    menu.choose_source(None);
    assert_eq!(menu.question, Question::Cancelled);

    let mut menu = scan_menu_with_source(Some("/dev/sdb".to_string()));
    menu.check_rights(false);
    menu.go_on_anyway(1);
    assert!(menu.finish().is_none());

    let mut menu = scan_menu_with_source(Some("copia.img".to_string()));
    menu.check_rights(false);
    assert_eq!(menu.question, Question::Types);
    menu.choose_types(&[]);
    assert_eq!(menu.question, Question::Cancelled);

    let mut menu = scan_menu_with_source(Some("copia.img".to_string()));
    menu.check_rights(false);
    menu.choose_types(&[0]);
    menu.choose_output("x".to_string());
    menu.confirm(false);
    assert!(menu.finish().is_none());
}

#[test]
fn a_clone_is_set_up_question_by_question() {
    let mut menu = clone_menu();
    menu.choose_source(Some("/dev/sdb".to_string()));
    menu.check_rights(true);
    assert_eq!(menu.question, Question::Output);
    menu.choose_output("/home/yo/copia.img".to_string());
    menu.confirm(true);
    let config = menu.finish().unwrap();
    assert_eq!(config.source_path, "/dev/sdb");
    assert_eq!(config.output_path, "/home/yo/copia.img");

    let mut menu = clone_menu();
    menu.choose_source(Some("/dev/sdb".to_string()));
    menu.check_rights(false);
    menu.go_on_anyway(1);
    assert!(menu.finish().is_none());
    assert_eq!(default_output_name("20260101_000000"), "RecupeGhost_20260101_000000");
    assert_eq!(
        default_image_name("20260101_000000"),
        "RecupeGhost_imagen_20260101_000000.img"
    );
}

#[test]
fn sources_are_chosen_step_by_step() {
    assert_eq!(select_source(0), SourceStep::Removable);
    assert_eq!(select_source(1), SourceStep::AllDrives);
    assert_eq!(select_source(2), SourceStep::Image);
    assert_eq!(select_source(3), SourceStep::Manual);
    assert_eq!(select_source(4), SourceStep::Back);
    assert_eq!(select_removable_drive(0), SourceStep::AllDrives);
    assert_eq!(select_removable_drive(1), SourceStep::Image);
    assert_eq!(select_removable_drive(2), SourceStep::Manual);
    assert_eq!(select_removable_drive(3), SourceStep::Back);
    let disks = vec![
        drive("/dev/sda", "Disco A", &["/"]),
        drive("/dev/sdb", "Disco B", &["/media/b"]),
    ];
    assert_eq!(select_all_drives(&disks), SourceStep::AllDrives);
    assert_eq!(select_all_drives(&[]), SourceStep::Manual);
    assert_eq!(
        drive_entries(&disks),
        vec![
            "  Disco A  💻 (disco de tu PC — guardá lo recuperado en OTRO disco/USB)",
            "  Disco B",
            "  ↩️  Volver"
        ]
    );
    assert_eq!(show_drive_list(&disks, 1).as_deref(), Some("/dev/sdb"));
    assert!(show_drive_list(&disks, 2).is_none());
}

#[test]
fn image_files_are_known_by_their_extension() {
    for extension in ["img", "DD", "Raw", "iso"] {
        assert!(is_image_extension(extension));
    }
    assert!(!is_image_extension("jpg") && !is_image_extension(""));
    assert_eq!(image_entry("disco.img", 2048), "  📄 disco.img (2.0 KB)");
    assert_eq!(select_image_file(1, 2), ImageChoice::File(1));
    assert_eq!(select_image_file(2, 2), ImageChoice::Manual);
    assert_eq!(select_image_file(3, 2), ImageChoice::Back);
    assert_eq!(select_image_file(0, 0), ImageChoice::Manual);
    assert_eq!(select_image_file(1, 0), ImageChoice::Back);
}

#[test]
fn a_path_by_hand_is_looked_at() {
    assert_eq!(trim_answer("  /dev/sdb \n"), "/dev/sdb");
    assert_eq!(prompt_path_or_cancel("", true, true), PathAnswer::Cancelled);
    assert_eq!(prompt_path_or_cancel("x.img", true, false), PathAnswer::Missing);
    assert_eq!(prompt_path_or_cancel("x.img", false, true), PathAnswer::Accepted);
    assert_eq!(prompt_path_or_cancel("/dev/sdb", true, false), PathAnswer::Accepted);
    assert_eq!(prompt_path_or_cancel("/dev/sdb", false, false), PathAnswer::Missing);
    assert_eq!(
        prompt_path_or_cancel("\\\\.\\PhysicalDrive1", true, false),
        PathAnswer::Accepted
    );
}

fn args(source: Option<&str>) -> CliArgs {
    CliArgs {
        source: source.map(|s| s.to_string()),
        fotos: false,
        videos: false,
        audio: false,
        documentos: false,
        output: None,
        no_update: false,
    }
}

#[test]
fn arguments_without_a_source_say_nothing() {
    assert!(args(None).validate());
    assert!(args(Some("x.img")).validate());
    let mut a = args(None);
    a.fotos = true;
    assert!(!a.validate());
    let mut a = args(None);
    a.output = Some("salida".to_string());
    assert!(!a.validate());
}

#[test]
fn arguments_choose_the_categories() {
    let all = args(Some("x")).into_scan_config("x".to_string(), "/s".to_string());
    assert_eq!(all.categories.len(), 4);
    let mut a = args(Some("x"));
    a.audio = true;
    a.fotos = true;
    let some = a.into_scan_config("x".to_string(), "/s".to_string());
    assert_eq!(
        some.categories,
        vec![FileCategory::Photo, FileCategory::Audio]
    );
    assert_eq!(some.source_path, "x");
    assert_eq!(some.output_dir, "/s");
    assert_eq!(args(None).chosen_output("T"), "RecupeGhost_T");
    let mut a = args(None);
    a.output = Some("salida".to_string());
    assert_eq!(a.chosen_output("T"), "salida");
}

#[test]
fn the_program_runs_as_it_is_called() {
    assert_eq!(args(Some("x")).run_mode(false), RunMode::Batch);
    assert_eq!(args(None).run_mode(true), RunMode::Interactive);
    assert_eq!(args(None).run_mode(false), RunMode::NoTerminal);
    assert!(args(None).checks_for_updates(true));
    assert!(!args(None).checks_for_updates(false));
    assert!(!args(Some("x")).checks_for_updates(true));
    let mut a = args(None);
    a.no_update = true;
    assert!(!a.checks_for_updates(true));
    assert!(source_is_usable("/dev/sdb", false));
    assert!(!source_is_usable("x.img", false));
    assert!(source_is_usable("x.img", true));
    assert_eq!(batch_warning(false, true), BatchWarning::GoOn);
    assert_eq!(batch_warning(true, true), BatchWarning::Ask);
    assert_eq!(batch_warning(true, false), BatchWarning::GoOnUnasked);
}

#[test]
fn an_interrupt_stops_what_is_running_or_ends_the_program() {
    let (mut scan, mut saving, mut copy) =
        (ScanState::idle(), RecoveryState::idle(), CloneState::idle());
    assert_eq!(interrupted(&mut scan, &mut saving, &mut copy), Some(130));
    assert!(!scan.cancel_requested && !saving.cancel_requested && !copy.cancel_requested);
    scan.begin();
    assert_eq!(interrupted(&mut scan, &mut saving, &mut copy), None);
    assert!(scan.cancel_requested && !saving.cancel_requested && !copy.cancel_requested);
    scan = ScanState::idle();
    saving.begin();
    assert_eq!(interrupted(&mut scan, &mut saving, &mut copy), None);
    assert!(!scan.cancel_requested && saving.cancel_requested && !copy.cancel_requested);
    saving = RecoveryState::idle();
    copy.begin();
    assert_eq!(interrupted(&mut scan, &mut saving, &mut copy), None);
    assert!(!scan.cancel_requested && !saving.cancel_requested && copy.cancel_requested);
}

#[test]
fn a_long_list_of_files_is_cut() {
    let signature = all_signatures()[0];
    let files: Vec<FoundFile> = (0..23)
        .map(|i| FoundFile {
            signature,
            offset: i * 4096,
            size: 2048,
            index: i as usize + 1,
            footer_found: true,
            end_unknown: false,
        })
        .collect();
    let lines = found_listing(&files);
    assert_eq!(lines.len(), 21);
    assert_eq!(lines[20], "  ... y 3 archivos más");
    assert_eq!(lines[0], format!("  {}", files[0].friendly_summary()));
    assert_eq!(found_listing(&files[..20]).len(), 20);
    let result = ScanResult::new(files, 10, false, false);
    assert_eq!(scan_outcome(&result), ScanOutcome::Found);
    assert_eq!(
        scan_outcome(&ScanResult::new(vec![], 10, false, true)),
        ScanOutcome::CancelledEmpty
    );
    assert_eq!(
        scan_outcome(&ScanResult::new(vec![], 10, false, false)),
        ScanOutcome::NothingFound
    );
}

#[test]
fn the_size_of_a_source_comes_from_the_right_place() {
    assert_eq!(get_source_size("x.img", true, None, Some(10)), Ok(10));
    assert_eq!(
        get_source_size("x.img", true, None, Some(0)),
        Err(SizeError::Empty)
    );
    assert_eq!(
        get_source_size("x.img", false, Some(9), None),
        Err(SizeError::Unknown)
    );
    let disk = "\\\\.\\PhysicalDrive0";
    assert_eq!(get_source_size(disk, true, Some(500), Some(7)), Ok(500));
    assert_eq!(get_source_size(disk, true, None, Some(7)), Ok(7));
    assert_eq!(
        get_source_size(disk, true, None, Some(0)),
        Err(SizeError::DeviceUnknown)
    );
    assert_eq!(
        get_source_size(disk, true, None, None),
        Err(SizeError::DeviceUnknown)
    );
    assert_eq!(
        SizeError::Empty.message(),
        "El origen está vacío, no hay nada que escanear"
    );
    assert!(SizeError::Unknown.message().contains("tamaño del origen"));
    assert!(SizeError::DeviceUnknown.message().contains("disco físico"));
}
