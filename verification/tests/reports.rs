use recupe_ghost::drives::linux::{de_bool_flex, de_size_flex, JsonValue, LsblkDevice};
use recupe_ghost::drives::macos::{get_macos_disk_info, whole_disks};
use recupe_ghost::drives::windows::{
    extract_disk_number, extract_drive_letter, get_drive_letter_map_get_partition,
    get_drive_letter_map_wmi, json_shape, JsonShape, PartitionMapping, WmiDisk,
    WmiPartitionMapping,
};
use recupe_ghost::drives::{current_uid, is_admin, list_drives, list_removable, DriveReport};

fn text(s: &str) -> Option<String> {
    Some(s.to_string())
}

#[test]
fn lsblk_disks_keep_all_their_mount_points() {
    let devices = vec![
        LsblkDevice {
            name: "sda".to_string(),
            size: text("500107862016"),
            dev_type: text("disk"),
            rm: Some(false),
            model: text("  Samsung SSD "),
            child_mounts: vec![text("/boot"), None, text(""), text("/")],
        },
        LsblkDevice {
            name: "sr0".to_string(),
            size: None,
            dev_type: text("rom"),
            rm: Some(true),
            model: None,
            child_mounts: vec![],
        },
        LsblkDevice {
            name: "sdb".to_string(),
            size: text("mucho"),
            dev_type: text("disk"),
            rm: Some(true),
            model: None,
            child_mounts: vec![],
        },
    ];
    let drives = list_drives(&DriveReport::Lsblk(devices));
    assert_eq!(drives.len(), 2);
    assert_eq!(drives[0].path, "/dev/sda");
    assert_eq!(drives[0].all_mounts, vec!["/boot", "/"]);
    assert_eq!(drives[0].letter.as_deref(), Some("/boot"));
    assert_eq!(
        drives[0].display_name,
        "/dev/sda - Samsung SSD (465.8 GB) [/boot]"
    );
    assert_eq!(drives[0].size_bytes, 500_107_862_016);
    assert_eq!(drives[1].display_name, "/dev/sdb - Disco desconocido (0 B)");
    assert!(drives[1].is_removable && drives[1].all_mounts.is_empty());

    let removable = list_removable(&drives);
    assert_eq!(removable.len(), 1);
    assert_eq!(removable[0].path, "/dev/sdb");
}

#[test]
fn lsblk_values_come_in_several_forms() {
    let size = |v| de_size_flex(&v);
    assert_eq!(size(Some(JsonValue::Text("5".to_string()))), text("5"));
    assert_eq!(
        size(Some(JsonValue::Number("7".to_string(), Some(7)))),
        text("7")
    );
    assert_eq!(size(Some(JsonValue::Bool(true))), text("true"));
    assert_eq!(size(Some(JsonValue::Other("[]".to_string()))), text("[]"));
    assert_eq!(size(None), None);
    let truth = |v| de_bool_flex(&v);
    assert_eq!(truth(Some(JsonValue::Bool(false))), Some(false));
    assert_eq!(truth(Some(JsonValue::Text("1".to_string()))), Some(true));
    assert_eq!(truth(Some(JsonValue::Text("0".to_string()))), Some(false));
    assert_eq!(truth(Some(JsonValue::Text("true".to_string()))), Some(true));
    assert_eq!(truth(Some(JsonValue::Text("True".to_string()))), None);
    assert_eq!(
        truth(Some(JsonValue::Number("-3".to_string(), Some(-3)))),
        Some(true)
    );
    assert_eq!(truth(Some(JsonValue::Number("1.5".to_string(), None))), None);
    assert_eq!(truth(Some(JsonValue::Other("{}".to_string()))), None);
    assert_eq!(truth(None), None);
}

fn wmi(id: Option<&str>, model: Option<&str>, size: Option<&str>, media: Option<&str>) -> WmiDisk {
    WmiDisk {
        device_id: id.map(|s| s.to_string()),
        model: model.map(|s| s.to_string()),
        size: size.map(|s| s.to_string()),
        media_type: media.map(|s| s.to_string()),
    }
}

#[test]
fn powershell_disks_get_the_letters_of_their_number() {
    let disks = vec![
        wmi(
            Some("\\\\.\\PHYSICALDRIVE0"),
            Some("WDC WD10"),
            Some("1000204886016"),
            Some("Fixed hard disk media"),
        ),
        wmi(None, Some("sin ruta"), None, None),
        wmi(
            Some("\\\\.\\PHYSICALDRIVE1"),
            None,
            None,
            Some("Removable Media"),
        ),
    ];
    let letters = vec![
        ("0".to_string(), "C:".to_string()),
        ("1".to_string(), "F:".to_string()),
        ("0".to_string(), "D:".to_string()),
    ];
    let drives = list_drives(&DriveReport::PowerShell(disks, letters));
    assert_eq!(drives.len(), 2);
    assert_eq!(drives[0].all_mounts, vec!["C:", "D:"]);
    assert_eq!(drives[0].display_name, "C: - WDC WD10 (931.5 GB)");
    assert!(!drives[0].is_removable);
    assert_eq!(drives[1].display_name, "F: - Disco desconocido (0 B)");
    assert!(drives[1].is_removable);

    let bare = list_drives(&DriveReport::PowerShell(
        vec![wmi(Some("\\\\.\\PHYSICALDRIVE2"), Some("X"), None, Some("EXTERNAL"))],
        vec![],
    ));
    assert_eq!(bare[0].display_name, "\\\\.\\PHYSICALDRIVE2 - X (0 B)");
    assert!(bare[0].letter.is_none() && bare[0].is_removable);
}

#[test]
fn drive_letters_come_from_partitions_or_associations() {
    let rows = vec![
        PartitionMapping {
            disk_number: Some(0),
            drive_letter: text("C"),
        },
        PartitionMapping {
            disk_number: Some(12),
            drive_letter: text("  "),
        },
        PartitionMapping {
            disk_number: None,
            drive_letter: text("D"),
        },
        PartitionMapping {
            disk_number: Some(1),
            drive_letter: text(" F "),
        },
    ];
    assert_eq!(
        get_drive_letter_map_get_partition(&rows),
        vec![
            ("0".to_string(), "C:".to_string()),
            ("1".to_string(), "F:".to_string())
        ]
    );
    let antecedent = "\\\\PC\\root\\cimv2:Win32_DiskPartition.DeviceID=\"Disk #12, Partition #0\"";
    let dependent = "\\\\PC\\root\\cimv2:Win32_LogicalDisk.DeviceID=\"D:\"";
    assert_eq!(extract_disk_number(antecedent), text("12"));
    assert_eq!(extract_disk_number("Disk #x"), None);
    assert_eq!(extract_disk_number("nada"), None);
    assert_eq!(extract_drive_letter(dependent), text("D:"));
    assert_eq!(extract_drive_letter("DeviceID=\"\""), None);
    assert_eq!(extract_drive_letter("DeviceID=\"E:"), text("E:"));
    let rows = vec![
        WmiPartitionMapping {
            antecedent: text(antecedent),
            dependent: text(dependent),
        },
        WmiPartitionMapping {
            antecedent: text(antecedent),
            dependent: None,
        },
    ];
    assert_eq!(
        get_drive_letter_map_wmi(&rows),
        vec![("12".to_string(), "D:".to_string())]
    );
}

#[test]
fn the_shape_of_a_report_is_recognised() {
    assert_eq!(json_shape("  \r\n"), JsonShape::Empty);
    assert_eq!(json_shape(" [ {} ]"), JsonShape::Rows);
    assert_eq!(json_shape("{}"), JsonShape::SingleRow);
}

#[test]
fn a_table_may_have_commas_in_the_model() {
    let table = "\r\nPC1,\\\\.\\PHYSICALDRIVE1,Removable Media,Kingston, Inc. DT,15500000000\r\n\r\nPC1,solo,dos\r\nPC1,\\\\.\\PHYSICALDRIVE2,Fixed,,\r\n";
    let drives = list_drives(&DriveReport::Wmic(table.to_string()));
    assert_eq!(drives.len(), 2);
    assert_eq!(
        drives[0].display_name,
        "\\\\.\\PHYSICALDRIVE1 - Kingston, Inc. DT (14.4 GB)"
    );
    assert_eq!(drives[0].size_bytes, 15_500_000_000);
    assert!(drives[0].is_removable && drives[0].letter.is_none());
    assert_eq!(
        drives[1].display_name,
        "\\\\.\\PHYSICALDRIVE2 - Disco desconocido (0 B)"
    );
    assert!(list_drives(&DriveReport::Wmic(String::new())).is_empty());
    assert!(list_drives(&DriveReport::Nothing).is_empty());
}

#[test]
fn whole_disks_are_read_from_the_property_list() {
    let plist = "<dict><key>AllDisks</key><array><string>disk0</string><string>disk0s1</string></array><key>WholeDisks</key>\n<array>\n<string>disk0</string>\n <string> disk2 </string></array></dict>";
    assert_eq!(whole_disks(plist), vec!["/dev/disk0", "/dev/disk2"]);
    assert!(whole_disks("<array></array>").is_empty());
    assert!(whole_disks("<key>WholeDisks</key></array><array>").is_empty());
    assert!(whole_disks("<key>WholeDisks</key><array>").is_empty());
}

#[test]
fn disks_of_macos_are_described() {
    let info = "   Device / Media Name:  APPLE SSD: Media\n   Disk Size:  500.1 GB (500107862016 Bytes) (exactly)\n   Protocol:  USB\n";
    let disk = get_macos_disk_info("/dev/disk2", info);
    assert_eq!(disk.size_bytes, 500_107_862_016);
    assert!(disk.is_removable);
    assert_eq!(disk.display_name, "/dev/disk2 - APPLE SSD (465.8 GB)");
    let plain = get_macos_disk_info("/dev/disk0", "   Disk Size: unknown\nProtocol: SATA");
    assert_eq!(plain.display_name, "/dev/disk0 - Disco desconocido (0 B)");
    assert!(!plain.is_removable);
    for (answer, is_removable) in [("Fixed", false), ("Removable", true), ("", false)] {
        let info = format!("   Removable Media:          {}\n   Protocol:  SATA", answer);
        assert_eq!(get_macos_disk_info("/dev/disk0", &info).is_removable, is_removable);
    }
    let drives = list_drives(&DriveReport::Diskutil(vec![
        ("/dev/disk0".to_string(), None),
        ("/dev/disk2".to_string(), text(info)),
    ]));
    assert_eq!(drives.len(), 1);
    assert_eq!(drives[0].path, "/dev/disk2");
}

#[test]
fn only_the_first_user_has_all_rights() {
    assert!(is_admin(Some("0\n")));
    assert!(!is_admin(Some("1000\n")));
    assert!(!is_admin(None));
    assert_eq!(current_uid(Some("no")), 1000);
    assert_eq!(current_uid(Some(" 501 ")), 501);
    assert_eq!(current_uid(None), 1000);
}
