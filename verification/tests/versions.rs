use recupe_ghost::updater::{check_for_updates, is_newer, parse_version, UpdateCheck, Version};

fn version(major: u32, minor: u32, patch: u32) -> Version {
    Version {
        major,
        minor,
        patch,
    }
}

#[test]
fn test_parse_version_with_v() {
    assert_eq!(parse_version("v0.2.0"), Some(version(0, 2, 0)));
}

#[test]
fn test_parse_version_without_v() {
    assert_eq!(parse_version("1.3.7"), Some(version(1, 3, 7)));
}

#[test]
fn test_parse_version_invalid() {
    assert_eq!(parse_version("abc"), None);
    assert_eq!(parse_version("1.2"), None);
}

#[test]
fn test_parse_version_with_suffix() {
    assert_eq!(parse_version("v1.2.3-rc1"), Some(version(1, 2, 3)));
    assert_eq!(parse_version("1.2.3+build"), Some(version(1, 2, 3)));
    assert_eq!(parse_version("1.2.rc1"), None);
}

#[test]
fn test_is_newer() {
    let v1 = version(0, 1, 0);
    let v2 = version(0, 2, 0);
    let v3 = version(1, 0, 0);
    assert!(!is_newer(&v1, &v1));
    assert!(is_newer(&v2, &v1));
    assert!(!is_newer(&v1, &v2));
    assert!(is_newer(&v3, &v2));
}

#[test]
fn version_numbers_are_read_as_the_standard_library_reads_them() {
    assert_eq!(parse_version("+1.2.3"), Some(version(1, 2, 3)));
    assert_eq!(parse_version("4294967295.0.0"), Some(version(u32::MAX, 0, 0)));
    assert_eq!(parse_version("4294967296.0.0"), None);
    assert_eq!(parse_version("1.2.3.4"), None);
    assert_eq!(parse_version("vv1.2.3"), None);
    assert_eq!(parse_version("1..3"), None);
    assert_eq!(parse_version(""), None);
    assert_eq!(parse_version("1.0x.3"), Some(version(1, 0, 3)));
    for part in ["0", "007", "+5", "+", "-1", "", "12a", "4294967295", "4294967296"] {
        let expected = part.parse::<u32>().ok();
        let text = format!("{}.0.0", part);
        let read = parse_version(&text).map(|v| v.major);
        if expected.is_some() {
            assert_eq!(read, expected, "{}", part);
        }
    }
}

#[test]
fn the_newest_tag_is_compared_with_the_own_version() {
    assert_eq!(check_for_updates("v1.2.4", "1.2.3"), UpdateCheck::Available);
    assert_eq!(check_for_updates("v1.2.3", "1.2.3"), UpdateCheck::UpToDate);
    assert_eq!(check_for_updates("v1.2.3", "2.0.0"), UpdateCheck::UpToDate);
    assert_eq!(
        check_for_updates("latest", "1.2.3"),
        UpdateCheck::UnreadableRemote
    );
    assert_eq!(
        check_for_updates("v1.2.3", "dev"),
        UpdateCheck::UnreadableLocal
    );
}

#[test]
fn newer_is_transitive() {
    let a = version(1, 0, 1);
    let b = version(1, 0, 0);
    let c = version(0, 9, 9);
    assert!(is_newer(&a, &b) && is_newer(&b, &c) && is_newer(&a, &c));
}
