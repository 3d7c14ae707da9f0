use std::borrow::Cow;

use jpv_lib::clipboard::{
    decode_escaped, hex_digit, trim_whitespace, whitespace_marks, without_marked,
};

#[test]
fn plain_ascii_is_kept() {
    assert_eq!(decode_escaped(b"hello world"), Some("hello world".to_string()));
    assert_eq!(decode_escaped(b""), Some(String::new()));
}

#[test]
fn unicode_escapes_are_decoded() {
    assert_eq!(decode_escaped(b"a\\u3042b"), Some("aあb".to_string()));
    assert_eq!(decode_escaped(b"\\u98df\\u3079\\u308b"), Some("食べる".to_string()));
    assert_eq!(decode_escaped(b"\\u98DF"), Some("食".to_string()));
    assert_eq!(decode_escaped(b"\\u0041"), Some("A".to_string()));
}

#[test]
fn doubled_backslash_is_one() {
    assert_eq!(decode_escaped(b"a\\\\b"), Some("a\\b".to_string()));
    assert_eq!(decode_escaped(b"\\\\u3042"), Some("\\u3042".to_string()));
}

#[test]
fn lone_backslash_stands_for_itself() {
    assert_eq!(decode_escaped(b"\\"), Some("\\".to_string()));
    assert_eq!(decode_escaped(b"\\n"), Some("\\n".to_string()));
}

#[test]
fn bytes_outside_ascii_are_dropped() {
    assert_eq!(decode_escaped(&[b'a', 0xe3, 0x81, 0x82, b'b']), Some("ab".to_string()));
    assert_eq!(decode_escaped(&[0xff]), Some(String::new()));
}

#[test]
fn broken_escapes_give_nothing() {
    assert_eq!(decode_escaped(b"\\u30"), None);
    assert_eq!(decode_escaped(b"abc\\u304"), None);
    assert_eq!(decode_escaped(b"\\u30g2"), None);
    assert_eq!(decode_escaped(b"\\ud800"), None);
    assert_eq!(decode_escaped(b"\\uDFFF"), None);
    assert_eq!(decode_escaped(b"\\ud7ff").map(|s| s.chars().next()), Some(Some('\u{d7ff}')));
    assert_eq!(decode_escaped(b"\\ue000").map(|s| s.chars().next()), Some(Some('\u{e000}')));
}

#[test]
fn hex_digits_in_either_case() {
    assert_eq!(hex_digit(b'0'), Some(0));
    assert_eq!(hex_digit(b'9'), Some(9));
    assert_eq!(hex_digit(b'a'), Some(10));
    assert_eq!(hex_digit(b'f'), Some(15));
    assert_eq!(hex_digit(b'A'), Some(10));
    assert_eq!(hex_digit(b'F'), Some(15));
    assert_eq!(hex_digit(b'g'), None);
    assert_eq!(hex_digit(b'G'), None);
    assert_eq!(hex_digit(b'/'), None);
    assert_eq!(hex_digit(b':'), None);
    assert_eq!(hex_digit(b'@'), None);
    assert_eq!(hex_digit(b'`'), None);
}

#[test]
fn text_without_whitespace_is_borrowed() {
    let out = trim_whitespace("日本語");
    assert!(matches!(out, Cow::Borrowed("日本語")));
    assert!(matches!(trim_whitespace(""), Cow::Borrowed("")));
}

#[test]
fn whitespace_is_taken_out() {
    let out = trim_whitespace("日本 語\nを\t勉強");
    assert!(matches!(out, Cow::Owned(_)));
    assert_eq!(out, "日本語を勉強");
    assert_eq!(trim_whitespace(" a b "), "ab");
    assert_eq!(trim_whitespace("日本\u{3000}語"), "日本語");
    assert_eq!(trim_whitespace("   "), "");
}

#[test]
fn marked_characters_are_taken_out() {
    let out = without_marked("a b\tc", &vec![false, true, false, true, false]);
    assert_eq!(out, "abc");
    assert!(matches!(out, Cow::Owned(_)));
    // Marks decide, not the characters.
    assert_eq!(without_marked("a b", &vec![true, false, true]), " ");
    assert_eq!(without_marked("日本語", &vec![false, true, false]), "日語");
    assert_eq!(without_marked("abc", &vec![true, true, true]), "");
    // Characters behind the marks are kept.
    assert_eq!(without_marked("abcd", &vec![true]), "bcd");
    // Marks behind the text mark nothing.
    let out = without_marked("ab", &vec![false, false, true, true]);
    assert_eq!(out, "ab");
    assert!(matches!(out, Cow::Borrowed(_)));
    let out = without_marked("a b", &vec![false, false, false]);
    assert_eq!(out, "a b");
    assert!(matches!(out, Cow::Borrowed(_)));
    assert!(matches!(without_marked("", &vec![true]), Cow::Borrowed("")));
}

#[test]
fn whitespace_is_marked() {
    assert_eq!(whitespace_marks("a b\n\u{3000}語"), vec![false, true, false, true, true, false]);
    assert_eq!(whitespace_marks(""), Vec::<bool>::new());
}
