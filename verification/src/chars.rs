//! Character classes of a line: decimal digits and white space.

use vstd::prelude::*;

verus! {

/// The ten decimal digits `0` to `9`.
pub open spec fn is_digit(c: char) -> bool {
    '0' <= c && c <= '9'
}

/// The number from 0 to 9 that a decimal digit stands for.
pub open spec fn digit_value(c: char) -> nat
    recommends
        is_digit(c),
{
    (c as u32 - '0' as u32) as nat
}

/// White space: the characters with the Unicode property `White_Space`, from
/// the tabulator and the line feed to the ideographic space.
pub open spec fn is_space(c: char) -> bool {
    let n = c as u32;
    ||| 0x09 <= n <= 0x0D
    ||| n == 0x20
    ||| n == 0x85
    ||| n == 0xA0
    ||| n == 0x1680
    ||| 0x2000 <= n <= 0x200A
    ||| n == 0x2028
    ||| n == 0x2029
    ||| n == 0x202F
    ||| n == 0x205F
    ||| n == 0x3000
}

/// Every character of `s` from `from` up to `to` is white space.
pub open spec fn all_spaces(s: Seq<char>, from: int, to: int) -> bool {
    forall|i: int| from <= i < to ==> is_space(#[trigger] s[i])
}

/// Every character of `s` from `from` up to `to` is a decimal digit.
pub open spec fn all_digits(s: Seq<char>, from: int, to: int) -> bool {
    forall|i: int| from <= i < to ==> is_digit(#[trigger] s[i])
}

/// Tells whether a character is a decimal digit.
pub fn is_decimal_digit(c: char) -> (b: bool)
    ensures
        b == is_digit(c),
{
    '0' <= c && c <= '9'
}

/// The number that a character stands for as a decimal digit, if it is one.
pub fn to_digit(c: char) -> (digit: Option<u8>)
    ensures
        digit == (if is_digit(c) {
            Some(digit_value(c) as u8)
        } else {
            None
        }),
{
    if is_decimal_digit(c) {
        let n: u32 = c as u32;
        Some((n - 48) as u8)
    } else {
        None
    }
}

/// Tells whether a character is white space.
pub fn is_whitespace(c: char) -> (b: bool)
    ensures
        b == is_space(c),
{
    let n: u32 = c as u32;
    (0x09 <= n && n <= 0x0D) || n == 0x20 || n == 0x85 || n == 0xA0 || n == 0x1680
        || (0x2000 <= n && n <= 0x200A) || n == 0x2028 || n == 0x2029 || n == 0x202F
        || n == 0x205F || n == 0x3000
}

/// The characters of a text, one by one.
pub fn characters(text: &str) -> (line: Vec<char>)
    ensures
        line@ == text@,
{
    let mut line: Vec<char> = Vec::new();
    for c in it: text.chars()
        invariant
            line@ == it.seq().take(it.index() as int),
            it.seq() == text@,
    {
        line.push(c);
    }
    line
}

} // verus!
