use recupe_ghost::paths::{same_path, with_image_extension};
use recupe_ghost::drives::DriveInfo;
use recupe_ghost::ui::devices::{is_under, source_mounts};
use recupe_ghost::ui::{is_likely_system_disk, normalize_to_whole_disk, same_device_warning};
use recupe_ghost::util::is_physical_device;

fn drive_with_mounts(mounts: &[&str]) -> DriveInfo {
    DriveInfo {
        path: "irrelevante".to_string(),
        display_name: "irrelevante".to_string(),
        letter: mounts.first().map(|m| m.to_string()),
        all_mounts: mounts.iter().map(|m| m.to_string()).collect(),
        size_bytes: 0,
        is_removable: false,
    }
}

fn drive_at(path: &str, mounts: &[&str]) -> DriveInfo {
    DriveInfo {
        path: path.to_string(),
        ..drive_with_mounts(mounts)
    }
}

#[test]
fn test_is_likely_system_disk_windows_c() {
    assert!(is_likely_system_disk(&drive_with_mounts(&["C:"])));
    assert!(is_likely_system_disk(&drive_with_mounts(&["c:"])));
}

#[test]
fn test_is_likely_system_disk_unix_root() {
    assert!(is_likely_system_disk(&drive_with_mounts(&["/"])));
}

#[test]
fn test_is_likely_system_disk_false_for_data_drives() {
    assert!(!is_likely_system_disk(&drive_with_mounts(&["D:"])));
    assert!(!is_likely_system_disk(&drive_with_mounts(&["/home"])));
    assert!(!is_likely_system_disk(&drive_with_mounts(&["/media/usb"])));
    assert!(!is_likely_system_disk(&drive_with_mounts(&[])));
}

#[test]
fn test_is_likely_system_disk_checks_all_mounts_not_just_first() {
    assert!(is_likely_system_disk(&drive_with_mounts(&["/home", "/"])));
}

#[test]
fn test_normalize_sd_family_partitions_to_whole_disk() {
    assert_eq!(normalize_to_whole_disk("/dev/sdb1"), "/dev/sdb");
    assert_eq!(normalize_to_whole_disk("/dev/sda2"), "/dev/sda");
    assert_eq!(normalize_to_whole_disk("/dev/hda1"), "/dev/hda");
    assert_eq!(normalize_to_whole_disk("/dev/vdb3"), "/dev/vdb");
    assert_eq!(normalize_to_whole_disk("/dev/xvda1"), "/dev/xvda");
}

#[test]
fn test_normalize_sd_family_whole_disk_unchanged() {
    assert_eq!(normalize_to_whole_disk("/dev/sda"), "/dev/sda");
    assert_eq!(normalize_to_whole_disk("/dev/sdb"), "/dev/sdb");
}

#[test]
fn test_normalize_pn_separator_families() {
    assert_eq!(normalize_to_whole_disk("/dev/nvme0n1p2"), "/dev/nvme0n1");
    assert_eq!(normalize_to_whole_disk("/dev/mmcblk0p1"), "/dev/mmcblk0");
    assert_eq!(normalize_to_whole_disk("/dev/nbd0p1"), "/dev/nbd0");
}

#[test]
fn test_normalize_digit_terminal_whole_disks_unchanged() {
    assert_eq!(normalize_to_whole_disk("/dev/mmcblk0"), "/dev/mmcblk0");
    assert_eq!(normalize_to_whole_disk("/dev/nbd0"), "/dev/nbd0");
    assert_eq!(normalize_to_whole_disk("/dev/loop0"), "/dev/loop0");
    assert_eq!(normalize_to_whole_disk("/dev/sr0"), "/dev/sr0");
    assert_eq!(normalize_to_whole_disk("/dev/md0"), "/dev/md0");
    assert_eq!(normalize_to_whole_disk("/dev/nvme0n1"), "/dev/nvme0n1");
}

#[test]
fn test_normalize_macos_disk_partitions() {
    assert_eq!(normalize_to_whole_disk("/dev/disk2s1"), "/dev/disk2");
    assert_eq!(normalize_to_whole_disk("/dev/disk0s2"), "/dev/disk0");
    assert_eq!(normalize_to_whole_disk("/dev/disk2"), "/dev/disk2");
}

#[test]
fn test_normalize_non_partition_paths_unchanged() {
    assert_eq!(
        normalize_to_whole_disk("\\\\.\\PhysicalDrive0"),
        "\\\\.\\PhysicalDrive0"
    );
    assert_eq!(
        normalize_to_whole_disk("/home/usuario/imagen.dd"),
        "/home/usuario/imagen.dd"
    );
}

#[test]
fn odd_device_names_are_cut_no_further_than_known() {
    assert_eq!(normalize_to_whole_disk("/dev/disk2s1s3"), "/dev/disk2s1s3");
    assert_eq!(normalize_to_whole_disk("/dev/disks1"), "/dev/disks1");
    assert_eq!(normalize_to_whole_disk("/dev/12"), "/dev/12");
    assert_eq!(normalize_to_whole_disk("/dev/p1"), "/dev/p1");
    assert_eq!(normalize_to_whole_disk("/dev/sd-a1"), "/dev/sd-a1");
    assert_eq!(normalize_to_whole_disk("/dev/"), "/dev/");
    assert_eq!(normalize_to_whole_disk(""), "");
    // A name may read as a partition of a partition; only one step is taken.
    assert_eq!(normalize_to_whole_disk("/dev/a1p2p3"), "/dev/a1p2");
}

#[test]
fn test_same_device_warning_none_for_non_physical_source() {
    assert!(same_device_warning(
        "/home/usuario/imagen.dd",
        "/home/usuario/recuperados",
        &[],
        &[]
    )
    .is_none());
}

#[test]
fn the_mounts_of_the_disk_around_a_partition_are_found() {
    let disks = vec![
        drive_at("/dev/sda", &["/boot", "/"]),
        drive_at("/dev/sdb", &["/media/usb", "  ", "/media/usb2"]),
        drive_at("\\\\.\\PhysicalDrive1", &["D:", "E:"]),
    ];
    assert_eq!(
        source_mounts("/dev/sdb1", &disks),
        vec!["/media/usb", "/media/usb2"]
    );
    assert_eq!(source_mounts("/dev/sda", &disks), vec!["/boot", "/"]);
    assert_eq!(
        source_mounts("\\\\.\\physicaldrive1", &disks),
        vec!["D:", "E:"]
    );
    assert!(source_mounts("/dev/sdc", &disks).is_empty());
}

#[test]
fn an_output_on_the_source_disk_is_warned_of() {
    let mounts = vec!["/boot".to_string(), "/media/usb".to_string()];
    let warning = same_device_warning("/dev/sdb1", "/media/usb/fotos", &mounts, &[]).unwrap();
    assert!(warning.contains("mismo disco"));
    assert!(warning.contains("(/media/usb)"));
    assert!(same_device_warning("/dev/sdb1", "/media/usb2/fotos", &mounts, &[]).is_none());
    // The system may know better than the paths.
    let by_volume =
        same_device_warning("/dev/sdb1", "/otra/carpeta", &mounts, &[None, Some(true)]).unwrap();
    assert!(by_volume.contains("(/media/usb)"));
    assert!(
        same_device_warning("/dev/sdb1", "/otra/carpeta", &mounts, &[Some(false), None]).is_none()
    );
}

#[test]
fn a_disk_without_known_mounts_is_warned_of() {
    let warning = same_device_warning("/dev/sdz", "/cualquier/lado", &[], &[]).unwrap();
    assert!(warning.contains("No pudimos confirmar"));
    assert!(warning.contains("(/dev/sdz)"));
}

#[test]
fn the_root_takes_in_only_itself() {
    assert!(is_under("/", "/"));
    assert!(!is_under("/home/usuario", "/"));
    assert!(is_under("D:\\Recuperados", "D:"));
    assert!(is_under("D:/Recuperados", "D:\\"));
    assert!(is_under("/media/usb", "/media/usb/"));
    assert!(!is_under("/media/usb2", "/media/usb"));
}

#[test]
fn test_is_physical_device_detects_raw_devices() {
    assert!(is_physical_device("/dev/sda"));
    assert!(is_physical_device("/dev/nvme0n1"));
    assert!(is_physical_device("/dev/disk2"));
    assert!(is_physical_device("\\\\.\\PhysicalDrive0"));
    assert!(is_physical_device("\\\\.\\E:"));
}

#[test]
fn test_is_physical_device_detects_windows_alt_prefixes() {
    assert!(is_physical_device("//./PhysicalDrive0"));
    assert!(is_physical_device("\\\\?\\PhysicalDrive0"));
    assert!(is_physical_device("//?/PhysicalDrive0"));
}

#[test]
fn test_is_physical_device_false_for_normal_folders() {
    assert!(!is_physical_device("/home/usuario/Recuperados"));
    assert!(!is_physical_device("D:\\Recuperados"));
    assert!(!is_physical_device("RecupeGhost_20260101_000000"));
    assert!(!is_physical_device("copia.img"));
    assert!(!is_physical_device("/home/dev/fotos"));
}

#[test]
fn paths_are_compared_by_their_parts() {
    let paths = [
        "", ".", "/", "//", "a", "a/", "a//b", "a/b", "a/./b", "a/b/.", "./a/b", "./", "/a", "/a/",
        "//a", "/./a", "..", "../a", "a/..", "/dev/sdb", "/dev/sdb/", "/dev//sdb", "a\\b", " a",
        "/tmp/x.img", "/tmp/./x.img", "/tmp/x.img/", "tmp/x.img",
    ];
    for a in paths {
        for b in paths {
            assert_eq!(
                same_path(a, b),
                std::path::Path::new(a) == std::path::Path::new(b),
                "{:?} and {:?}",
                a,
                b
            );
        }
    }
}

#[test]
fn an_image_path_gets_an_extension_as_std_gives_it() {
    for answer in [
        "", "/", ".", "..", "./", "a", "a/", "a//", "a/.", "a/./.", "./a", "../a", "/a", "/a/b",
        "a.img", "a.img/", "a.", "a.b.c", ".hidden", ".hidden.x", "dir.d/a", "dir.d/", "dir/..",
        "...", "..a", "a..", "/.", "//", "copia de hoy", "a\\b", "\u{f1}and\u{fa}", "a/.b",
    ] {
        let mut path = std::path::PathBuf::from(answer);
        if path.extension().is_none() {
            path.set_extension("img");
        }
        assert_eq!(with_image_extension(answer, false), path.to_str().unwrap(), "{:?}", answer);
    }
    assert_eq!(with_image_extension("C:\\dir.d\\copia", true), "C:\\dir.d\\copia.img");
    assert_eq!(with_image_extension("C:\\dir\\copia.dd", true), "C:\\dir\\copia.dd");
    assert_eq!(with_image_extension("D:", true), "D:");
    assert_eq!(with_image_extension("C:\\dir\\", true), "C:\\dir.img");
}
