use recupe_ghost::parse::{
    digits_at_end, digits_at_start, find, is_white_space, parse_number,
    same_ignoring_case, split, to_lower, trim,
};
use recupe_ghost::text::{
    letters, owned, push_decimal, push_decimal_4, push_joined, push_number, same_text, starts_with,
    text_of,
};
use recupe_ghost::util::{
    format_size, friendly_error_hint, wait_message_at, IoErrorKind, WAIT_MESSAGE_COUNT,
};

fn chars(s: &str) -> Vec<char> {
    s.chars().collect()
}

fn string(s: &[char]) -> String {
    s.iter().collect()
}

#[test]
fn white_space_is_that_of_the_standard_library() {
    for n in 0..0x11_0000u32 {
        if let Some(c) = char::from_u32(n) {
            assert_eq!(is_white_space(c), c.is_whitespace(), "U+{:04X}", n);
            assert_eq!(to_lower(c), c.to_ascii_lowercase());
        }
    }
}

#[test]
fn texts_are_trimmed_and_split_as_in_the_standard_library() {
    for s in ["", " ", "a", "  a b ", "\u{3000}x\r\n", "a,,b,", ",", "a::b::c", "aaa"] {
        assert_eq!(string(trim(&chars(s))), s.trim());
        for sep in [",", "::", "aa", "zz"] {
            let ours: Vec<String> = split(&chars(s), &chars(sep))
                .iter()
                .map(|piece| string(piece))
                .collect();
            let theirs: Vec<String> = s.split(sep).map(|piece| piece.to_string()).collect();
            assert_eq!(ours, theirs, "{:?} by {:?}", s, sep);
            assert_eq!(ours.join(sep), s);
            assert_eq!(find(&chars(s), &chars(sep)), s.find(sep).filter(|_| s.is_ascii()));
        }
    }
}

#[test]
fn numbers_are_read_as_in_the_standard_library() {
    for s in [
        "", "0", "+0", "-0", "+", "00012", "18446744073709551615", "18446744073709551616", "1 ",
        "12x", "99999999999999999999999", "\u{661}",
    ] {
        assert_eq!(parse_number(&chars(s), u64::MAX), s.parse::<u64>().ok(), "{:?}", s);
        assert_eq!(
            parse_number(&chars(s), u32::MAX as u64).map(|n| n as u32),
            s.parse::<u32>().ok()
        );
    }
    assert_eq!(string(digits_at_start(&chars("12ab34"))), "12");
    assert_eq!(string(digits_at_end(&chars("12ab34"))), "34");
    assert_eq!(string(digits_at_end(&chars("567"))), "567");
    assert_eq!(string(digits_at_start(&chars("x"))), "");
}

#[test]
fn texts_are_put_together_character_by_character() {
    assert_eq!(letters("ñandú👻"), chars("ñandú👻"));
    assert_eq!(text_of(&chars("ñandú👻")), "ñandú👻");
    assert_eq!(owned("x"), "x");
    assert!(same_text("é", "é") && !same_text("é", "e"));
    assert!(starts_with("/dev/sda", "/dev/") && !starts_with("/de", "/dev/"));
    assert!(same_ignoring_case(&chars("PhysicalDrive1"), &chars("physicaldrive1")));
    assert!(!same_ignoring_case(&chars("Ñ"), &chars("ñ")));
    let mut s = String::from("n=");
    push_decimal(&mut s, 0);
    push_decimal(&mut s, 18_446_744_073_709_551_615);
    assert_eq!(s, "n=018446744073709551615");
    let mut hex = String::new();
    push_number(&mut hex, 0xDEAD_BEEF, 16);
    assert_eq!(hex, format!("{:X}", 0xDEAD_BEEFu32));
    for n in [0u64, 7, 42, 999, 1000, 12345] {
        let mut padded = String::new();
        push_decimal_4(&mut padded, n);
        assert_eq!(padded, format!("{:04}", n));
    }
    let mut joined = String::new();
    push_joined(&mut joined, &vec!["a".to_string(), "b".to_string()], " | ");
    assert_eq!(joined, "a | b");
}

/// Size as floating point shows it.
fn shown(bytes: u64) -> String {
    let b = bytes as f64;
    if bytes >= 1 << 40 {
        format!("{:.1} TB", b / (1u64 << 40) as f64)
    } else if bytes >= 1 << 30 {
        format!("{:.1} GB", b / (1u64 << 30) as f64)
    } else if bytes >= 1 << 20 {
        format!("{:.1} MB", b / (1u64 << 20) as f64)
    } else if bytes >= 1 << 10 {
        format!("{:.1} KB", b / 1024.0)
    } else {
        format!("{} B", bytes)
    }
}

#[test]
fn sizes_are_shown_as_floating_point_shows_them() {
    assert_eq!(format_size(0), "0 B");
    assert_eq!(format_size(1023), "1023 B");
    assert_eq!(format_size(1024), "1.0 KB");
    assert_eq!(format_size(1536), "1.5 KB");
    assert_eq!(format_size(1_048_575), shown(1_048_575));
    let mut state: u64 = 0x1234_5678_9ABC_DEF1;
    for i in 0..20_000u32 {
        state ^= state << 13;
        state ^= state >> 7;
        state ^= state << 17;
        let n = state >> (i % 64);
        assert_eq!(format_size(n), shown(n), "{}", n);
    }
    for shift in 0..64 {
        for n in [(1u64 << shift).wrapping_sub(1), 1u64 << shift, (1u64 << shift) + 1] {
            assert_eq!(format_size(n), shown(n), "{}", n);
        }
    }
    assert_eq!(format_size(u64::MAX), shown(u64::MAX));
}

#[test]
fn hints_follow_the_first_system_error() {
    let hint = friendly_error_hint(&[None, Some(IoErrorKind::PermissionDenied)]).unwrap();
    assert!(hint.contains("permisos"));
    assert!(friendly_error_hint(&[Some(IoErrorKind::NotFound)]).unwrap().contains("ruta"));
    assert_eq!(
        friendly_error_hint(&[Some(IoErrorKind::TimedOut)]),
        friendly_error_hint(&[Some(IoErrorKind::Interrupted)])
    );
    assert!(friendly_error_hint(&[Some(IoErrorKind::Other), Some(IoErrorKind::NotFound)]).is_none());
    assert!(friendly_error_hint(&[None, None]).is_none());
    assert!(friendly_error_hint(&[]).is_none());
}

#[test]
fn the_waiting_message_changes_every_eight_seconds() {
    assert!(wait_message_at(0).contains("café"));
    assert_eq!(wait_message_at(0), wait_message_at(7));
    assert_ne!(wait_message_at(7), wait_message_at(8));
    assert_eq!(wait_message_at(3), wait_message_at(3 + 8 * WAIT_MESSAGE_COUNT));
}
