use tl_cli::text::{
    after_last, chars_of, contains_char, format_hex_padded, format_i64, format_u64, parse_i64,
    split_once, str_eq, string_of, trim, white_space,
};

#[test]
fn split_once_splits_at_first_separator() {
    let r = split_once("Referer: https://example.com", ':').unwrap();
    assert_eq!(r.0, "Referer");
    assert_eq!(r.1, " https://example.com");
    assert!(split_once("no separator", ':').is_none());
    let e = split_once(":", ':').unwrap();
    assert_eq!(e.0, "");
    assert_eq!(e.1, "");
}

#[test]
fn trim_removes_unicode_whitespace_at_both_ends() {
    assert_eq!(trim("  Cookie \t"), "Cookie");
    assert_eq!(trim("\u{3000}a b\u{a0}"), "a b");
    assert_eq!(trim("   "), "");
    assert_eq!(trim(""), "");
    assert_eq!(trim("x"), "x");
    for s in ["  a  ", "\n\tb c\r\n", "\u{2000}d\u{205f}", "e"] {
        assert_eq!(trim(s), s.trim());
    }
}

#[test]
fn white_space_matches_std() {
    for c in ['\t', '\n', ' ', '\u{85}', '\u{a0}', '\u{1680}', '\u{2009}', '\u{3000}', 'a', '0', '\u{200b}'] {
        assert_eq!(white_space(c), c.is_whitespace());
    }
}

#[test]
fn after_last_matches_rsplit_next() {
    for s in ["https://a.com/x/file.zip", "noslash", "trailing/", "/", ""] {
        assert_eq!(after_last(s, '/'), s.rsplit('/').next().unwrap());
    }
}

#[test]
fn parse_i64_matches_std() {
    for s in [
        "0", "12345", "-12", "+7", "-", "+", "", "12a", " 1", "9223372036854775807",
        "9223372036854775808", "-9223372036854775808", "-9223372036854775809",
        "0000000000000000000000000042",
    ] {
        assert_eq!(parse_i64(s), s.parse::<i64>().ok(), "input {:?}", s);
    }
}

#[test]
fn numbers_format_like_std() {
    for n in [0i64, 7, 10, 12345, -1, -987, i64::MIN, i64::MAX] {
        assert_eq!(format_i64(n), format!("{}", n));
    }
    assert_eq!(format_u64(18446744073709551615), "18446744073709551615");
    assert_eq!(format_hex_padded(255, 4), "00ff");
    assert_eq!(format_hex_padded(0x1234_5678_9abc_def0_1, 16), "123456789abcdef01");
    assert_eq!(format_hex_padded(0, 16), format!("{:016x}", 0u128));
}

#[test]
fn small_string_helpers() {
    assert!(str_eq("abc", "abc"));
    assert!(!str_eq("abc", "abd"));
    assert!(contains_char("a?b", '?'));
    assert!(!contains_char("ab", '#'));
    assert_eq!(chars_of("héllo"), vec!['h', 'é', 'l', 'l', 'o']);
    assert_eq!(string_of("x/y"), "x/y");
}
