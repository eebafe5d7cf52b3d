use ftp_slint::text::{
    chars_of, appended, eq_ignore_case, join_spaced, parse_signed, parse_unsigned, push_decimal,
    split_before, split_once, split_words, starts_with, string_of, trim,
};

fn text(s: &[char]) -> String {
    string_of(s)
}

#[test]
fn trimming_agrees_with_std() {
    for s in ["", " ", " a ", "\t\u{3000}我 的\r\n", "a b", "\u{a0}x\u{2028}"] {
        assert_eq!(text(trim(&chars_of(s))), s.trim());
    }
}

#[test]
fn words_agree_with_std() {
    for s in ["", "  ", "a", " a  b\tc ", "我 的\u{3000}文件"] {
        let chars = chars_of(s);
        let words: Vec<String> = split_words(&chars).iter().map(|w| text(w)).collect();
        let std: Vec<&str> = s.split_whitespace().collect();
        assert_eq!(words, std);
    }
}

#[test]
fn words_are_joined_by_spaces() {
    let chars = chars_of("a  bb   c");
    let words = split_words(&chars);
    assert_eq!(text(&join_spaced(&words, 1)), "bb c");
}

#[test]
fn numbers_agree_with_std() {
    for s in ["", "0", "7", "+7", "-7", "18446744073709551615", "18446744073709551616", "1x", "+"] {
        assert_eq!(parse_unsigned(&chars_of(s), 10, u64::MAX), s.parse().ok(), "{s}");
        assert_eq!(parse_signed(&chars_of(s)), s.parse().ok(), "{s}");
    }
    for s in ["9223372036854775807", "9223372036854775808", "-9223372036854775808", "-0"] {
        assert_eq!(parse_signed(&chars_of(s)), s.parse().ok(), "{s}");
    }
    assert_eq!(parse_unsigned(&chars_of("755"), 8, 4095), Some(0o755));
    assert_eq!(parse_unsigned(&chars_of("8"), 8, 4095), None);
}

#[test]
fn decimals_read_back() {
    for n in [0, 9, 10, 99, 100, 12_345, u64::MAX] {
        let mut out = String::new();
        push_decimal(&mut out, n);
        assert_eq!(out, n.to_string());
        assert_eq!(parse_unsigned(&chars_of(&out), 10, u64::MAX), Some(n));
    }
}

#[test]
fn cuts_and_prefixes() {
    let chars = chars_of("key=a=b");
    let (key, value) = split_once(&chars, '=').unwrap();
    assert_eq!((text(key), text(value)), ("key".to_string(), "a=b".to_string()));
    assert!(split_once(&chars, ';').is_none());
    assert!(starts_with(&chars, "key"));
    assert!(!starts_with(&chars, "keys"));
    assert_eq!(text(split_before(&chars_of("a -> b -> c"), " -> ")), "a");
    assert_eq!(text(split_before(&chars_of("a"), " -> ")), "a");
    assert!(eq_ignore_case(&chars_of("<dir>"), &chars_of("<DIR>")));
    assert!(!eq_ignore_case(&chars_of("é"), &chars_of("É")));
    assert_eq!(appended("我", "的"), "我的");
}

#[test]
fn white_space_only_parts_words() {
    let count = |s: &str| split_words(&chars_of(s)).len();
    assert_eq!(count("a b\u{3000}c"), count("a b") + count("c"));
    assert_eq!(count(" \t "), 0);
}
