use gatekeeper::text::{
    decimal_string, parse_usize, str_contains, str_eq_ignore_ascii_case, str_starts_with, trim_str,
};

#[test]
fn trim_removes_unicode_white_space() {
    assert_eq!(trim_str("  a b \t\n"), "a b");
    assert_eq!(trim_str("\u{3000}x\u{00A0}"), "x");
    assert_eq!(trim_str("   "), "");
    assert_eq!(trim_str(""), "");
}

#[test]
fn contains_and_prefix() {
    assert!(str_contains("curl/7.0", "curl"));
    assert!(str_contains("abc", ""));
    assert!(!str_contains("ab", "abc"));
    assert!(str_starts_with("Bearer x", "Bearer "));
    assert!(!str_starts_with("bearer x", "Bearer "));
}

#[test]
fn ascii_case_insensitive_equality() {
    assert!(str_eq_ignore_ascii_case("PoSt", "post"));
    assert!(!str_eq_ignore_ascii_case("post", "posts"));
}

#[test]
fn decimal_and_parse_agree_with_std() {
    for n in [0u128, 7, 10, 99, 12345, u64::MAX as u128] {
        assert_eq!(decimal_string(n), n.to_string());
    }
    for s in ["0", "42", "+42", "", "+", "-1", "4x", "18446744073709551615", "18446744073709551616", " 1"] {
        assert_eq!(parse_usize(s), s.parse::<usize>().ok());
    }
}
