use solang_sema::diagnostics::{Diagnostics, Loc};
use solang_sema::strings::{get_digits, to_hex_digit, unescape, CharIndices};

#[test]
fn test_unescape() {
    let s = r"\u00f3";
    let mut vec = Diagnostics::default();
    let (valid, res) = unescape(s, 0, 0, &mut vec);
    assert!(valid && vec.is_empty());
    assert_eq!(res, vec![0xc3, 0xb3]);

    let s = r"\xff";
    let (valid, res) = unescape(s, 0, 0, &mut vec);
    assert!(valid && vec.is_empty());
    assert_eq!(res, vec![255]);

    let s = r"0\xfg";
    let (valid, res) = unescape(s, 0, 0, &mut vec);
    assert!(!valid && !vec.is_empty());
    assert_eq!(res, b"0");
}

#[test]
fn unescape_simple_escapes() {
    let mut diagnostics = Diagnostics::default();
    let (valid, res) = unescape(r#"a\n\t\\\"\'\r"#, 0, 0, &mut diagnostics);
    assert!(valid && diagnostics.is_empty());
    assert_eq!(res, b"a\n\t\\\"'\r".to_vec());
}

#[test]
fn unescape_unknown_escape() {
    let mut diagnostics = Diagnostics::default();
    let (valid, res) = unescape(r"ab\q", 10, 2, &mut diagnostics);
    assert!(!valid);
    assert_eq!(res, b"ab".to_vec());
    assert_eq!(diagnostics.len(), 1);
    assert_eq!(diagnostics.get(0).message, "unknown escape character 'q'");
    assert_eq!(diagnostics.get(0).loc, Loc::File(2, 13, 14));
}

#[test]
fn unescape_unicode_and_bad_unicode() {
    let mut diagnostics = Diagnostics::default();
    let (valid, res) = unescape(r"\u20ac!", 0, 0, &mut diagnostics);
    assert!(valid);
    assert_eq!(res, vec![0xe2, 0x82, 0xac, b'!']);

    let (valid, _) = unescape(r"\ud800", 0, 0, &mut diagnostics);
    assert!(!valid);
    assert_eq!(diagnostics.get(0).message, "Found an invalid unicode character");
}

#[test]
fn hex_digits() {
    assert_eq!(to_hex_digit('7'), Some(7));
    assert_eq!(to_hex_digit('b'), Some(11));
    assert_eq!(to_hex_digit('F'), Some(15));
    assert_eq!(to_hex_digit('g'), None);
}

#[test]
fn digits_from_char_indices() {
    let mut input = CharIndices::new("41zz");
    assert_eq!(get_digits(&mut input, 2), Ok(0x41));
    assert_eq!(input.next(), Some((2, 'z')));
    // a wrong digit is reported by the offset of the character after it
    let mut input = CharIndices::new("4xy");
    assert_eq!(get_digits(&mut input, 2), Err(2));
    let mut input = CharIndices::new("4x");
    assert_eq!(get_digits(&mut input, 2), Err(usize::MAX));
    let mut input = CharIndices::new("4");
    assert_eq!(get_digits(&mut input, 2), Err(usize::MAX));
}

#[test]
fn unescape_plain_text_is_utf8() {
    let mut diagnostics = Diagnostics::default();
    let text = "h\u{e9}llo \u{20ac}";
    let (valid, res) = unescape(text, 0, 0, &mut diagnostics);
    assert!(valid && diagnostics.is_empty());
    assert_eq!(res, text.as_bytes().to_vec());
}
