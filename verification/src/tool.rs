//! Small helpers on bytes and texts.

use vstd::prelude::*;
use vstd::string::StringExecFns;

verus! {

/// A byte of the lower-case range and above moved down by one case step;
/// every other byte unchanged.
pub open spec fn upper_byte(byte: u8) -> u8 {
    if byte >= 97 {
        (byte - 32) as u8
    } else {
        byte
    }
}

/// Upper-cases every byte of a slice.
pub fn upper_case(bytes: &[u8]) -> (result: Vec<u8>)
    ensures
        result@.len() == bytes@.len(),
        forall|i: int| 0 <= i < bytes@.len() ==> result@[i] == upper_byte(#[trigger] bytes@[i]),
{
    let mut result: Vec<u8> = Vec::new();
    let mut i: usize = 0;
    while i < bytes.len()
        invariant
            i <= bytes@.len(),
            result@.len() == i,
            forall|j: int| 0 <= j < i ==> result@[j] == upper_byte(#[trigger] bytes@[j]),
        decreases bytes@.len() - i,
    {
        result.push(upper_case_byte(bytes[i]));
        i += 1;
    }
    result
}

/// Upper-cases one byte.
pub fn upper_case_byte(byte: u8) -> (result: u8)
    ensures
        result == upper_byte(byte),
{
    if byte >= 97 {
        byte - 32
    } else {
        byte
    }
}

/// A lower-case ASCII letter as its capital; every other character unchanged.
pub open spec fn upper_char(c: char) -> char {
    if 'a' <= c && c <= 'z' {
        ((c as u32) - 32) as char
    } else {
        c
    }
}

/// Whether `text`, once its ASCII letters are made capitals, reads as `upper`.
pub open spec fn same_ignoring_case(text: Seq<char>, upper: Seq<char>) -> bool {
    &&& text.len() == upper.len()
    &&& forall|i: int| 0 <= i < text.len() ==> upper_char(#[trigger] text[i]) == upper[i]
}

/// Whether a character, made a capital, is the character `upper`.
pub fn char_is_ignoring_case(c: char, upper: char) -> (result: bool)
    ensures
        result == (upper_char(c) == upper),
{
    if 'a' <= c && c <= 'z' {
        (c as u32) - 32 == upper as u32
    } else {
        c == upper
    }
}

/// Compares a text with an upper-case word, ASCII letters taken without case.
pub fn eq_ignoring_case(text: &str, upper: &str) -> (result: bool)
    ensures
        result == same_ignoring_case(text@, upper@),
{
    let n = text.unicode_len();
    if n != upper.unicode_len() {
        return false;
    }
    let mut i: usize = 0;
    while i < n
        invariant
            i <= n,
            n == text@.len(),
            n == upper@.len(),
            forall|j: int| 0 <= j < i ==> upper_char(#[trigger] text@[j]) == upper@[j],
        decreases n - i,
    {
        if !char_is_ignoring_case(text.get_char(i), upper.get_char(i)) {
            return false;
        }
        i += 1;
    }
    true
}

/// The character of a decimal digit.
pub open spec fn digit_char(digit: int) -> char {
    (digit + 48) as char
}

/// A number written in decimal.
pub open spec fn decimal_digits(number: nat) -> Seq<char>
    decreases number,
{
    if number < 10 {
        seq![digit_char(number as int)]
    } else {
        decimal_digits(number / 10).push(digit_char((number % 10) as int))
    }
}

/// The text of one decimal digit.
pub fn digit_text(digit: usize) -> (text: &'static str)
    requires
        digit < 10,
    ensures
        text@ == seq![digit_char(digit as int)],
{
    proof {
        reveal_strlit("0");
        reveal_strlit("1");
        reveal_strlit("2");
        reveal_strlit("3");
        reveal_strlit("4");
        reveal_strlit("5");
        reveal_strlit("6");
        reveal_strlit("7");
        reveal_strlit("8");
        reveal_strlit("9");
    }
    let text = match digit {
        0 => "0",
        1 => "1",
        2 => "2",
        3 => "3",
        4 => "4",
        5 => "5",
        6 => "6",
        7 => "7",
        8 => "8",
        _ => "9",
    };
    assert(text@ =~= seq![digit_char(digit as int)]);
    text
}

/// Writes a number in decimal.
pub fn decimal_text(number: usize) -> (text: String)
    ensures
        text@ == decimal_digits(number as nat),
    decreases number,
{
    if number < 10 {
        digit_text(number).to_owned()
    } else {
        let mut text = decimal_text(number / 10);
        text.append(digit_text(number % 10));
        assert(text@ =~= decimal_digits(number as nat));
        text
    }
}

/// The character of a hexadecimal digit, a capital from ten on.
pub open spec fn hex_char(digit: int) -> char {
    if digit < 10 {
        (digit + 48) as char
    } else {
        (digit + 55) as char
    }
}

/// A number written in hexadecimal.
pub open spec fn hex_digits(number: nat) -> Seq<char>
    decreases number,
{
    if number < 16 {
        seq![hex_char(number as int)]
    } else {
        hex_digits(number / 16).push(hex_char((number % 16) as int))
    }
}

/// A number as a diagnostic shows it: `0x`, then its hexadecimal digits, at
/// least two of them.
pub open spec fn hex_notation(number: nat) -> Seq<char> {
    if number < 16 {
        "0x0"@ + hex_digits(number)
    } else {
        "0x"@ + hex_digits(number)
    }
}

/// The text of one hexadecimal digit.
pub fn hex_digit_text(digit: usize) -> (text: &'static str)
    requires
        digit < 16,
    ensures
        text@ == seq![hex_char(digit as int)],
{
    if digit < 10 {
        let text = digit_text(digit);
        assert(text@ =~= seq![hex_char(digit as int)]);
        text
    } else {
        proof {
            reveal_strlit("A");
            reveal_strlit("B");
            reveal_strlit("C");
            reveal_strlit("D");
            reveal_strlit("E");
            reveal_strlit("F");
        }
        let text = match digit {
            10 => "A",
            11 => "B",
            12 => "C",
            13 => "D",
            14 => "E",
            _ => "F",
        };
        assert(text@ =~= seq![hex_char(digit as int)]);
        text
    }
}

/// Writes the hexadecimal digits of a number.
pub fn hex_digits_text(number: usize) -> (text: String)
    ensures
        text@ == hex_digits(number as nat),
    decreases number,
{
    if number < 16 {
        hex_digit_text(number).to_owned()
    } else {
        let mut text = hex_digits_text(number / 16);
        text.append(hex_digit_text(number % 16));
        assert(text@ =~= hex_digits(number as nat));
        text
    }
}

/// Writes a number as a diagnostic shows it.
pub fn hex_text(number: usize) -> (text: String)
    ensures
        text@ == hex_notation(number as nat),
{
    let mut text = if number < 16 {
        "0x0".to_owned()
    } else {
        "0x".to_owned()
    };
    text.append(hex_digits_text(number).as_str());
    text
}

/// The low byte of a word.
pub open spec fn low_byte(number: int) -> u8 {
    (number % 256) as u8
}

/// The high byte of a word.
pub open spec fn high_byte(number: int) -> u8 {
    ((number / 256) % 256) as u8
}

} // verus!
