use recupe_ghost::drives::DriveInfo;
use recupe_ghost::recovery::RecoveryResult;
use recupe_ghost::scanner::assemble::ScanResult;
use recupe_ghost::scanner::{FoundFile, Integrity};
use recupe_ghost::signatures::{all_signatures, FileCategory};
use recupe_ghost::cli::found_listing;
use recupe_ghost::scanner::found::in_display_order;
use recupe_ghost::util::IoErrorKind;
use recupe_ghost::wizard::{
    done_headline, drive_label, recovery_progress_line, result_rows, scan_progress_line,
    PendingAction, Phase, StartStep, Step, Wizard, STEP_COUNT,
};

fn drive(path: &str, name: &str, is_removable: bool) -> DriveInfo {
    DriveInfo {
        path: path.to_string(),
        display_name: name.to_string(),
        letter: None,
        all_mounts: vec![],
        size_bytes: 0,
        is_removable,
    }
}

fn wizard() -> Wizard {
    Wizard::new(
        vec![
            drive("/dev/sda", "Disco A", false),
            drive("/dev/sdb", "Pendrive", true),
            drive("/dev/sdc", "Tarjeta", true),
        ],
        "salida".to_string(),
    )
}

fn empty_result() -> ScanResult {
    ScanResult::new(vec![], 0, false, false)
}

#[test]
fn the_steps_are_in_order() {
    let labels: Vec<&str> = (0..STEP_COUNT)
        .map(|i| Step::at(i).unwrap().label())
        .collect();
    assert_eq!(labels, vec!["Disco", "Tipos", "Guardar", "Buscar"]);
    assert!(Step::at(STEP_COUNT).is_none());
    assert_eq!(Step::Source.prev(), None);
    assert_eq!(Step::Summary.prev(), Some(Step::Output));
    assert_eq!(Step::Output.index(), 2);
}

#[test]
fn the_first_removable_disk_is_chosen_at_the_start() {
    let mut w = wizard();
    assert_eq!(w.selected_drive, 1);
    assert_eq!(w.resolve_source().as_deref(), Some("/dev/sdb"));
    assert_eq!(w.source_label(), "Pendrive");
    assert_eq!(drive_label(&w.drives[1]), "Pendrive  ·  Extraíble");
    assert_eq!(drive_label(&w.drives[0]), "Disco A");
    w.replace_drives(vec![drive("/dev/sdz", "Z", false)]);
    assert_eq!(w.selected_drive, 0);
    w.replace_drives(vec![]);
    assert!(w.resolve_source().is_none());
    assert_eq!(w.source_label(), "(sin elegir)");
    w.manual_path = "  /tmp/copia.img ".to_string();
    assert_eq!(w.resolve_source().as_deref(), Some("/tmp/copia.img"));
    assert_eq!(w.source_label(), "/tmp/copia.img");
}

#[test]
fn the_wizard_goes_on_only_with_an_answer() {
    let mut w = wizard();
    w.advance(Step::Source, "/x/salida");
    assert_eq!(w.phase, Phase::Setup(Step::Types));
    w.photos = false;
    w.videos = false;
    w.audio = false;
    w.documents = false;
    assert_eq!(
        w.step_obstacle(Step::Types, "/x/salida"),
        Some("Marcá al menos un tipo")
    );
    w.advance(Step::Types, "/x/salida");
    assert_eq!(w.phase, Phase::Setup(Step::Types));
    w.audio = true;
    w.photos = true;
    assert_eq!(
        w.selected_categories(),
        vec![FileCategory::Photo, FileCategory::Audio]
    );
    assert_eq!(w.types_label(), "fotos, audio");
    w.advance(Step::Types, "/x/salida");
    assert_eq!(
        w.step_obstacle(Step::Output, "/dev/sdb"),
        Some("Eso es un disco, no una carpeta")
    );
    w.output_dir = "  ".to_string();
    assert_eq!(
        w.step_obstacle(Step::Output, "/x"),
        Some("Elegí una carpeta")
    );
    w.output_dir = "salida".to_string();
    w.advance(Step::Output, "/x/salida");
    assert_eq!(w.phase, Phase::Setup(Step::Summary));
    w.advance(Step::Summary, "/x/salida");
    assert_eq!(w.phase, Phase::Setup(Step::Summary));
    w.go_back(Step::Summary);
    assert_eq!(w.phase, Phase::Setup(Step::Output));
}

#[test]
fn what_is_missing_for_a_scan_is_said() {
    let mut w = wizard();
    w.replace_drives(vec![]);
    assert!(matches!(w.request_scan("/x"), StartStep::Failed));
    assert_eq!(w.phase, Phase::Error);
    assert!(w.error_msg.contains("Elegí un disco"));
    w.leave_error();
    w.manual_path = "a.img".to_string();
    w.photos = false;
    w.videos = false;
    w.audio = false;
    w.documents = false;
    w.request_scan("/x");
    assert!(w.error_msg.contains("al menos un tipo"));
    w.photos = true;
    w.output_dir = String::new();
    w.request_scan("/x");
    assert!(w.error_msg.contains("una carpeta donde guardar"));
    w.output_dir = "/dev/sdb".to_string();
    w.request_scan("/dev/sdb");
    assert!(w.error_msg.contains("no puede ser un disco"));
}

#[test]
fn a_warning_stops_a_scan_until_the_user_takes_the_risk() {
    let mut w = wizard();
    match w.request_scan("/x") {
        StartStep::Check(source) => assert_eq!(source, "/dev/sdb"),
        _ => panic!("the disk of the output has to be looked at"),
    }
    assert!(!w.checked_scan("/dev/sdb".to_string(), Some("ojo".to_string())));
    assert_eq!(w.phase, Phase::Setup(Step::Source));
    assert!(matches!(w.request_scan("/x"), StartStep::Ignored));
    assert_eq!(w.answer_warning(true, "/x"), Some(PendingAction::Scan));
    match w.request_scan("/x") {
        StartStep::Start(source) => assert_eq!(source, "/dev/sdb"),
        _ => panic!("the risk was taken"),
    }
    assert_eq!(w.phase, Phase::Scanning);

    // The consent is for that pair only.
    w.phase = Phase::Setup(Step::Summary);
    assert!(matches!(w.request_scan("/y"), StartStep::Check(_)));
    w.manual_path = "/dev//sdb/".to_string();
    assert!(matches!(w.request_scan("/x/"), StartStep::Start(_)));
    w.phase = Phase::Setup(Step::Summary);
    w.manual_path = "dev/sdb".to_string();
    assert!(matches!(w.request_scan("/x"), StartStep::Check(_)));
    w.manual_path = String::new();
    w.selected_drive = 2;
    assert!(matches!(w.request_scan("/x"), StartStep::Check(_)));
    assert!(w.checked_scan("/dev/sdc".to_string(), None));
    assert_eq!(w.phase, Phase::Scanning);
    assert_eq!(w.source.as_deref(), Some("/dev/sdc"));
}

#[test]
fn who_takes_no_risk_keeps_the_results() {
    let mut w = wizard();
    w.checked_scan("/dev/sdb".to_string(), None);
    w.scan_finished(empty_result());
    assert_eq!(w.phase, Phase::Results);
    assert!(matches!(w.request_recovery("/x"), StartStep::Check(_)));
    assert!(!w.checked_recovery(Some("ojo".to_string())));
    assert_eq!(w.answer_warning(false, "/x"), None);
    assert_eq!(w.phase, Phase::Setup(Step::Output));
    w.back_to_results();
    assert_eq!(w.phase, Phase::Results);
    assert!(w.checked_recovery(None));
    assert_eq!(w.phase, Phase::Recovering);
    w.recovery_finished(result(2, 0, 0));
    assert_eq!(w.phase, Phase::Done);
    w.restart();
    assert!(w.scan_result.is_none() && w.recovery_result.is_none());
    assert!(matches!(w.request_recovery("/x"), StartStep::Ignored));
    assert_eq!(w.answer_warning(true, "/x"), None);
}

#[test]
fn errors_are_shown_with_a_hint() {
    let mut w = wizard();
    w.fail_io(
        "No se pudo escanear",
        "acceso denegado",
        &[None, Some(IoErrorKind::PermissionDenied)],
    );
    assert_eq!(w.error_msg, "No se pudo escanear: acceso denegado");
    assert!(w.error_hint.unwrap().contains("permisos"));
    w.phase = Phase::Scanning;
    w.work_lost();
    assert!(w.error_msg.contains("El escaneo terminó"));
    assert!(w.error_hint.is_none());
    w.phase = Phase::Recovering;
    w.work_lost();
    assert!(w.error_msg.contains("La recuperación terminó"));
    w.leave_results();
    assert_eq!(w.phase, Phase::Setup(Step::Source));
    w.work_lost();
    assert_eq!(w.phase, Phase::Setup(Step::Source));
}

fn result(recovered: u64, truncated: u64, failed: u64) -> RecoveryResult {
    RecoveryResult {
        recovered,
        truncated,
        failed,
        total_bytes: 0,
        cancelled: false,
        output_dir: "/x".to_string(),
        errors: vec![],
    }
}

#[test]
fn a_headline_does_not_hide_what_is_incomplete() {
    assert_eq!(
        done_headline(&result(214, 0, 0)),
        "✅ ¡Listo! Se recuperaron 214 archivos."
    );
    assert_eq!(
        done_headline(&result(10, 2, 1)),
        "Se recuperaron 10 archivos, y 3 quedaron incompletos."
    );
}

#[test]
fn progress_is_put_into_words() {
    assert_eq!(
        scan_progress_line(4096, 2048).as_deref(),
        Some("2.0 KB de 2.0 KB revisados")
    );
    assert!(scan_progress_line(5, 0).is_none());
    assert_eq!(
        recovery_progress_line(1, 3, 1024).as_deref(),
        Some("1 de 3 archivos  ·  1.0 KB guardados")
    );
    assert!(recovery_progress_line(0, 0, 0).is_none());
    let file = FoundFile {
        signature: all_signatures()[0],
        offset: 0,
        size: 2048,
        index: 1,
        footer_found: true,
        end_unknown: false,
    };
    let rows = result_rows(&vec![file; 501]);
    assert_eq!(rows.len(), 500);
    assert_eq!(rows[0].0, Integrity::Intact);
    assert_eq!(rows[0].1, file.friendly_summary());
}

#[test]
fn finds_that_can_be_trusted_are_shown_first() {
    let signature = |name: &str| {
        *all_signatures().iter().find(|s| s.name == name).unwrap()
    };
    let file = |name: &str, index: usize, footer_found: bool| FoundFile {
        signature: signature(name),
        offset: index as u64 * 4096,
        size: 2048,
        index,
        footer_found,
        end_unknown: false,
    };
    let files = [
        file("JPEG", 1, false),
        file("TIFF", 2, false),
        file("JPEG", 3, true),
        file("JPEG", 4, false),
        file("JPEG", 5, true),
    ];
    let shown: Vec<usize> = in_display_order(&files).iter().map(|f| f.index).collect();
    assert_eq!(shown, vec![3, 5, 2, 1, 4]);
    let states: Vec<Integrity> = result_rows(&files).iter().map(|row| row.0).collect();
    assert_eq!(
        states,
        vec![
            Integrity::Intact,
            Integrity::Intact,
            Integrity::Unverifiable,
            Integrity::Suspect,
            Integrity::Suspect
        ]
    );
    let lines = found_listing(&files);
    assert_eq!(lines[0], format!("  {}", files[2].friendly_summary()));
    assert_eq!(lines[4], format!("  {}", files[3].friendly_summary()));
    assert_eq!(files[0].index, 1);
}
