//! The numeric codec and the small string helpers.

use xmp::strutil::{fmt_u64_string, parse_u8, parse_usize, str_eq, str_eq_ignore_ascii_case};

#[test]
fn decimal_parse_matches_std() {
    for s in ["0", "5", "255", "256", "+17", "007", "", "+", "-1", "1x", "999999999999"] {
        assert_eq!(parse_u8(s), s.parse::<u8>().ok(), "u8 {s:?}");
        assert_eq!(parse_usize(s), s.parse::<usize>().ok(), "usize {s:?}");
    }
}

#[test]
fn decimal_format_round_trip() {
    for n in [0u64, 1, 9, 10, 99, 100, 255, 12345, u64::MAX] {
        let s = fmt_u64_string(n);
        assert_eq!(s, n.to_string());
        assert_eq!(s.parse::<u64>().unwrap(), n);
    }
}

#[test]
fn string_comparisons() {
    assert!(str_eq("abc", "abc"));
    assert!(!str_eq("abc", "abd"));
    assert!(!str_eq("abc", "ab"));
    assert!(str_eq_ignore_ascii_case("NeF", "nEf"));
    assert!(!str_eq_ignore_ascii_case("nef", "neg"));
}
