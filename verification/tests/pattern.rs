use calculator::chars::{is_decimal_digit, is_whitespace};
use calculator::{MathStringParseError, Natural, Operation};
use regex::Regex;

const ALPHABET: [char; 8] = ['0', '7', ' ', '+', '/', 'x', '\n', '\u{2003}'];

/// What the pattern and the conversion of its three groups make of a line.
fn by_pattern(pattern: &Regex, line: &str) -> Result<Operation, MathStringParseError> {
    let groups = match pattern.captures(line) {
        Some(groups) => groups,
        None => return Err(MathStringParseError::NotParsable),
    };
    let left: Vec<char> = groups[1].chars().collect();
    let right: Vec<char> = groups[3].chars().collect();
    let operator = groups[2].chars().next().unwrap();
    Operation::from_parts(
        Natural::from_digits(&left).unwrap(),
        operator,
        Natural::from_digits(&right).unwrap(),
    )
}

fn agree_on_every_line(pattern: &Regex, line: &mut String, longer_by: usize, lines: &mut usize) {
    assert_eq!(Operation::from_string(line), by_pattern(pattern, line), "{:?}", line);
    *lines += 1;
    if longer_by > 0 {
        for c in ALPHABET {
            line.push(c);
            agree_on_every_line(pattern, line, longer_by - 1, lines);
            line.pop();
        }
    }
}

#[test]
fn agrees_with_the_pattern_on_short_lines() {
    let pattern = Regex::new(r"^\s*([0-9]+)\s*(\S)\s*([0-9]+)\s*$").unwrap();
    let mut lines = 0;
    agree_on_every_line(&pattern, &mut String::new(), 5, &mut lines);
    assert_eq!(lines, 1 + 8 + 64 + 512 + 4096 + 32768);
}

#[test]
fn agrees_with_the_pattern_on_chosen_lines() {
    let pattern = Regex::new(r"^\s*([0-9]+)\s*(\S)\s*([0-9]+)\s*$").unwrap();
    for line in [
        "1+2",
        "1 % 2",
        "abc",
        "1+",
        "1234567",
        "12 34 56",
        "12 3456",
        "1234 56",
        "9223372036854775807 - 9223372036854775807",
        "9223372036854775808 - 1",
        "340282366920938463463374607431768211456 * 340282366920938463463374607431768211456",
        "00000000000000000000000000000000000000000000000001 / 2",
        "123456789012345678901234567890 % 1",
        "\u{a0}1\u{1680}*\u{2028}2\u{3000}",
        "1\u{200b}+2",
        "1 \u{661} 2",
        "\u{661} + 2",
        "3 / 4\r\n",
    ] {
        assert_eq!(Operation::from_string(line), by_pattern(&pattern, line), "{:?}", line);
    }
}

#[test]
fn white_space_is_what_the_pattern_skips() {
    let space = Regex::new(r"^\s$").unwrap();
    let symbol = Regex::new(r"^\S$").unwrap();
    let mut text = String::new();
    for code in (0..0x1_0000_u32).chain((0x1_0000..=0x10_FFFF).step_by(97)) {
        if let Some(c) = char::from_u32(code) {
            text.clear();
            text.push(c);
            assert_eq!(is_whitespace(c), space.is_match(&text), "U+{:04X}", code);
            assert_eq!(!is_whitespace(c), symbol.is_match(&text), "U+{:04X}", code);
        }
    }
}

#[test]
fn digits_are_what_the_pattern_takes_for_operands() {
    let digit = Regex::new(r"^[0-9]$").unwrap();
    let mut text = String::new();
    for code in (0..0x1_0000_u32).chain((0x1_0000..=0x10_FFFF).step_by(97)) {
        if let Some(c) = char::from_u32(code) {
            text.clear();
            text.push(c);
            assert_eq!(is_decimal_digit(c), digit.is_match(&text), "U+{:04X}", code);
        }
    }
}
