//! The text tools that the settings and listings are read with.

use nobd::text::{
    chars_of, cut, decimal_of, find_char, find_text, has_text, lines, lowered, multi_sz,
    parse_hex_u16, parse_i32, parse_u32, parse_u64, put_hex, split_char, split_once, split_text,
    string_of, trimmed, wide, words,
};

fn v(t: &str) -> Vec<char> {
    chars_of(t)
}

fn texts(parts: Vec<Vec<char>>) -> Vec<String> {
    parts.iter().map(string_of).collect()
}

#[test]
fn lines_are_those_of_the_standard_library() {
    for t in ["", "a", "a\n", "a\nb", "a\r\nb\r", "\n\n", "a\r\r\n", "x\n\ny\n"] {
        let want: Vec<String> = t.lines().map(|l| l.to_string()).collect();
        assert_eq!(texts(lines(&v(t))), want, "{t:?}");
    }
}

#[test]
fn words_and_trimming_are_those_of_the_standard_library() {
    for t in ["", "  a b\t c ", "\u{a0}x\u{2003}", "abc", " \n "] {
        let want: Vec<String> = t.split_whitespace().map(|w| w.to_string()).collect();
        assert_eq!(texts(words(&v(t))), want, "{t:?}");
        assert_eq!(string_of(&trimmed(&v(t))), t.trim(), "{t:?}");
    }
}

#[test]
fn splitting_is_that_of_the_standard_library() {
    for t in ["", ",", "a,b", ",a,,b,"] {
        let want: Vec<String> = t.split(',').map(|p| p.to_string()).collect();
        assert_eq!(texts(split_char(&v(t), ',')), want, "{t:?}");
    }
    for t in ["", "ab", "a--b--", "----x"] {
        let want: Vec<String> = t.split("--").map(|p| p.to_string()).collect();
        assert_eq!(texts(split_text(&v(t), &v("--"))), want, "{t:?}");
    }
    let (k, w) = split_once(&v("a=b=c"), '=').expect("a sign");
    assert_eq!((string_of(&k).as_str(), string_of(&w).as_str()), ("a", "b=c"));
    assert!(split_once(&v("abc"), '=').is_none());
}

#[test]
fn numbers_are_those_of_the_standard_library() {
    for t in ["", "+", "-", "0", "+7", "-0", "-7", "007", "4294967295", "4294967296", "1x", "２"] {
        assert_eq!(parse_u32(&v(t)), t.parse::<u32>().ok(), "{t:?}");
        assert_eq!(parse_i32(&v(t)), t.parse::<i32>().ok(), "{t:?}");
    }
    for t in ["18446744073709551615", "18446744073709551616", "00000000000000000000000001"] {
        assert_eq!(parse_u64(&v(t)), t.parse::<u64>().ok(), "{t:?}");
    }
    for t in ["", "+", "ff", "FFFF", "10000", "+1", "0x1", "g"] {
        assert_eq!(parse_hex_u16(&v(t)), u16::from_str_radix(t, 16).ok(), "{t:?}");
    }
}

#[test]
fn what_is_written_reads_back() {
    for n in [0u64, 9, 10, 12345, u32::MAX as u64] {
        assert_eq!(string_of(&decimal_of(n)), n.to_string());
        assert_eq!(parse_u32(&decimal_of(n)), Some(n as u32));
    }
    for n in [0u32, 0x1A, 0xCAFE] {
        let mut out = Vec::new();
        put_hex(&mut out, n, 4, true);
        assert_eq!(string_of(&out), format!("{n:04X}"));
        assert_eq!(parse_hex_u16(&out), Some(n as u16));
    }
}

#[test]
fn searching() {
    assert_eq!(find_char(&v("abcb"), 'b', 2), 3);
    assert_eq!(find_char(&v("abc"), 'x', 0), 3);
    assert_eq!(find_text(&v("xxabab"), &v("ab"), 3), Some(4));
    assert_eq!(find_text(&v("xxab"), &v("ba"), 0), None);
    assert!(has_text(&v("haystack"), &v("st")) && has_text(&v(""), &v("")));
    assert_eq!(string_of(&cut(&v("abcd"), 1, 3)), "bc");
    assert_eq!(string_of(&lowered(&v("AzÄ9"))), "azÄ9");
}

#[test]
fn wide_text() {
    let want: Vec<u16> = "a😀".encode_utf16().chain([0]).collect();
    assert_eq!(wide("a😀"), want);
    assert_eq!(multi_sz(&vec!["a".to_string(), "b".to_string()]), vec![97, 0, 98, 0, 0]);
    assert_eq!(multi_sz(&vec![]), vec![0]);
}
