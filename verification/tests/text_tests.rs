use agentssh::text::{
    byte_prefix, byte_range, i64_to_string, is_control, is_whitespace, is_ascii_alphanumeric, one_line,
    parse_i32, str_eq, trim, u64_to_string,
};

#[test]
fn char_classes_match_std() {
    for u in 0u32..0x11_0000 {
        if let Some(c) = char::from_u32(u) {
            assert_eq!(is_whitespace(c), c.is_whitespace(), "whitespace {u:#x}");
            assert_eq!(is_control(c), c.is_control(), "control {u:#x}");
            assert_eq!(is_ascii_alphanumeric(c), c.is_ascii_alphanumeric(), "alnum {u:#x}");
        }
    }
}

#[test]
fn trim_matches_std() {
    for s in ["", "  ", " a ", "\u{3000}x\u{2028}", "a b", "\t\nabc\r\n", "\u{85}\u{a0}z"] {
        assert_eq!(trim(s), s.trim());
    }
}

#[test]
fn one_line_collapses_whitespace() {
    assert_eq!(one_line("  ls   -la\n\t/tmp  ", 80), "ls -la /tmp");
    assert_eq!(one_line("a\u{1}b", 80), "a b");
    assert_eq!(one_line("", 5), "");
    assert_eq!(one_line(" \n ", 5), "");
}

#[test]
fn one_line_truncates_with_ellipsis() {
    assert_eq!(one_line("abcdefghij", 5), "abcd…");
    assert_eq!(one_line("abcde", 5), "abcde");
    assert_eq!(one_line("abc", 0), "…");
    assert_eq!(one_line("ab", 1), "…");
}

#[test]
fn one_line_is_single_line_law() {
    let s = one_line("for x in 1 2 3\ndo\r\n  echo $x\ndone\n", 12);
    assert!(!s.contains('\n') && !s.contains('\r') && !s.contains('\t'));
    assert!(s.chars().count() <= 12);
    assert_eq!(s, "for x in 1 …");
}

#[test]
fn decimal_rendering() {
    assert_eq!(u64_to_string(0), "0");
    assert_eq!(u64_to_string(18446744073709551615), "18446744073709551615");
    assert_eq!(i64_to_string(-42), "-42");
    assert_eq!(i64_to_string(i64::MIN), i64::MIN.to_string());
}

#[test]
fn parse_i32_matches_std() {
    for s in [
        "0", "42", "-7", "+9", "", "-", "+", "12a", " 1", "2147483647", "2147483648",
        "-2147483648", "-2147483649", "000000000000000000017", "99999999999999999999", "-0",
    ] {
        assert_eq!(parse_i32(s), s.parse::<i32>().ok(), "input {s:?}");
    }
}

#[test]
fn byte_prefix_matches_str_get() {
    for (s, n) in [("2024-01-02T03:04:05.123Z", 19), ("short", 19), ("aé", 2), ("aé", 3), ("", 0)] {
        assert_eq!(byte_prefix(s, n).as_deref(), s.get(..n));
    }
}

#[test]
fn str_eq_compares_text() {
    assert!(str_eq("abc", "abc"));
    assert!(!str_eq("abc", "abd"));
    assert!(!str_eq("ab", "abc"));
}

#[test]
fn byte_range_matches_str_get() {
    let samples = ["2024-05-01T10:00:00.123Z", "short", "2024-05-01T10:0é:00Z", "", "héllo wörld ✓ abc"];
    for s in samples {
        for a in 0..22 {
            for b in 0..22 {
                assert_eq!(byte_range(s, a, b), s.get(a..b).map(|t| t.to_string()), "{s:?} {a}..{b}");
            }
        }
    }
    assert_eq!(byte_range("2024-05-01T10:00:00Z", 11, 19).as_deref(), Some("10:00:00"));
}
