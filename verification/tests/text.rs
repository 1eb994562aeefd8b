//! Numbers in texts.

use obcast::text::{decimal_text, has_text, parse_number, push_padded, same_text, strip_suffix};

#[test]
fn numbers_read_back() {
    for n in [0, 9, 10, 12_345, u64::MAX] {
        assert_eq!(parse_number(&decimal_text(n), u64::MAX), Some(n));
    }
    assert_eq!(decimal_text(u64::MAX), "18446744073709551615");
}

#[test]
fn odd_numbers_are_refused_as_the_standard_parser_does() {
    for s in [
        "", "+", "-1", "1 ", " 1", "1_0", "0x1", "18446744073709551616", "99999999999999999999999",
        "٣",
    ] {
        assert_eq!(parse_number(s, u64::MAX), None, "{s:?}");
        assert!(s.parse::<u64>().is_err(), "{s:?}");
    }
    for s in ["+1", "007", "18446744073709551615"] {
        assert_eq!(parse_number(s, u64::MAX), s.parse().ok(), "{s:?}");
    }
    assert_eq!(parse_number("255", 255), Some(255));
    assert_eq!(parse_number("256", 255), None);
}

#[test]
fn padding_keeps_the_last_digits() {
    let mut s = String::from(">");
    push_padded(&mut s, 7, 3);
    push_padded(&mut s, 1234, 2);
    assert_eq!(s, ">00734");
}

#[test]
fn texts_are_compared_and_searched() {
    assert!(same_text("añb", "añb"));
    assert!(!same_text("a", "A"));
    assert!(has_text("one libfdk_aac two", "libfdk_aac"));
    assert!(!has_text("libfdk", "libfdk_aac"));
    assert_eq!(strip_suffix("12.ts", ".ts"), Some("12"));
    assert_eq!(strip_suffix("é.ts", ".ts"), Some("é"));
    assert_eq!(strip_suffix("ts", ".ts"), None);
}
