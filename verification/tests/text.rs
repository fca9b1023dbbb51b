use chat_relay::text::{chars_of, push_decimal, string_of, trim_bounds, white_space};

#[test]
fn decimal_of_numbers() {
    let mut s = String::from("n=");
    push_decimal(&mut s, 0);
    assert_eq!(s, "n=0");
    let mut s = String::new();
    push_decimal(&mut s, 407);
    assert_eq!(s, "407");
    let mut s = String::new();
    push_decimal(&mut s, u64::MAX);
    assert_eq!(s, u64::MAX.to_string());
}

#[test]
fn white_space_set() {
    for c in ['\t', '\n', '\u{0B}', '\u{0C}', '\r', ' ', '\u{85}', '\u{A0}', '\u{1680}', '\u{2000}', '\u{200A}', '\u{2028}', '\u{2029}', '\u{202F}', '\u{205F}', '\u{3000}'] {
        assert!(white_space(c), "{:?}", c);
        assert!(c.is_whitespace());
    }
    for c in ['a', '\u{200B}', '\u{FEFF}', '\u{0}', '\u{1F}', '\u{180E}'] {
        assert!(!white_space(c), "{:?}", c);
        assert_eq!(c.is_whitespace(), white_space(c));
    }
}

#[test]
fn trim_bounds_of_text() {
    let chars = chars_of("  ab c \t");
    let (a, b) = trim_bounds(&chars, 0, chars.len());
    assert_eq!(string_of(&chars, a, b), "ab c");
    let blank = chars_of("   ");
    let (a, b) = trim_bounds(&blank, 0, blank.len());
    assert_eq!(a, b);
}
