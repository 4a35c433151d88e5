use calculator::chars::{characters, is_decimal_digit, is_whitespace, to_digit};

#[test]
fn white_space_is_the_unicode_property() {
    for code in 0..=0x10FFFF_u32 {
        if let Some(c) = char::from_u32(code) {
            assert_eq!(is_whitespace(c), c.is_whitespace(), "U+{:04X}", code);
        }
    }
}

#[test]
fn white_space_by_name() {
    for c in [' ', '\t', '\n', '\r', '\u{b}', '\u{c}', '\u{85}', '\u{a0}', '\u{2028}', '\u{3000}'] {
        assert!(is_whitespace(c), "{:?}", c);
    }
    for c in ['a', '0', '+', '\u{8}', '\u{e}', '\u{200b}', '\u{feff}', '\u{180e}'] {
        assert!(!is_whitespace(c), "{:?}", c);
    }
}

#[test]
fn digits_are_the_ten_ascii_digits() {
    for code in 0..=0x10FFFF_u32 {
        if let Some(c) = char::from_u32(code) {
            assert_eq!(is_decimal_digit(c), c.is_ascii_digit(), "U+{:04X}", code);
        }
    }
}

#[test]
fn digit_values() {
    assert_eq!(to_digit('0'), Some(0));
    assert_eq!(to_digit('5'), Some(5));
    assert_eq!(to_digit('9'), Some(9));
    assert_eq!(to_digit('/'), None);
    assert_eq!(to_digit(':'), None);
    assert_eq!(to_digit('a'), None);
    assert_eq!(to_digit('\u{665}'), None);
}

#[test]
fn digit_values_of_every_character() {
    for code in 0..=0x10FFFF_u32 {
        if let Some(c) = char::from_u32(code) {
            let expected = if c.is_ascii_digit() { c.to_digit(10) } else { None };
            assert_eq!(to_digit(c).map(u32::from), expected, "U+{:04X}", code);
        }
    }
}

#[test]
fn characters_of_a_text() {
    assert_eq!(characters(""), Vec::<char>::new());
    assert_eq!(characters("1 + 2"), vec!['1', ' ', '+', ' ', '2']);
    assert_eq!(characters("a\u{e9}\u{3000}\u{1f600}"), vec!['a', '\u{e9}', '\u{3000}', '\u{1f600}']);
}
