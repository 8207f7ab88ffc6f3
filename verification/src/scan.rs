//! What the lexer reads: the classes of bytes, the token that starts at a
//! place, and the run over a whole file.

use vstd::prelude::*;
use vstd::utf8::{decode_utf8, valid_utf8};
use crate::opcode::mnemonic_index;
use crate::parser::{ParseFault, TokenInfoView, TokenView};
use crate::tool::upper_byte;

verus! {

/// The byte of a tab.
pub const TAB: u8 = 9;

/// The byte of a line feed.
pub const LINE_FEED: u8 = 10;

/// The byte of a carriage return.
pub const CARRIAGE_RETURN: u8 = 13;

/// The byte of a space.
pub const SPACE: u8 = 32;

/// The byte of `"`.
pub const QUOTE: u8 = 34;

/// The byte of `#`.
pub const SHARP: u8 = 35;

/// The byte of `$`.
pub const DOLLAR: u8 = 36;

/// The byte of `%`.
pub const PERCENT: u8 = 37;

/// The byte of `(`.
pub const OPEN: u8 = 40;

/// The byte of `)`.
pub const CLOSE: u8 = 41;

/// The byte of `,`.
pub const COMMA: u8 = 44;

/// The byte of `.`.
pub const DOT: u8 = 46;

/// The byte of `0`.
pub const DIGIT_0: u8 = 48;

/// The byte of `1`.
pub const DIGIT_1: u8 = 49;

/// The byte of `9`.
pub const DIGIT_9: u8 = 57;

/// The byte of `:`.
pub const COLON: u8 = 58;

/// The byte of `;`.
pub const SEMICOLON: u8 = 59;

/// The byte of `=`.
pub const EQUALS: u8 = 61;

/// The byte of `A`.
pub const UPPER_A: u8 = 65;

/// The byte of `F`.
pub const UPPER_F: u8 = 70;

/// The byte of `Z`.
pub const UPPER_Z: u8 = 90;

/// The byte of a backslash.
pub const BACKSLASH: u8 = 92;

/// The byte of `_`.
pub const UNDERSCORE: u8 = 95;

/// The byte of `a`.
pub const LOWER_A: u8 = 97;

/// The byte of `f`.
pub const LOWER_F: u8 = 102;

/// The byte of `z`.
pub const LOWER_Z: u8 = 122;

/// A class of bytes, by which a run of bytes is told from what follows it.
pub enum ByteClass {
    /// `0` to `9`.
    Decimal,
    /// `0` to `9`, `a` to `f`, `A` to `F`.
    Hex,
    /// `0` and `1`.
    Binary,
    /// A letter, a digit or `_`.
    Name,
    /// A space or a tab.
    Blank,
    /// A line feed or a carriage return.
    LineBreak,
    /// Anything but a line feed or a carriage return.
    Inline,
}

/// Whether a byte is a decimal digit.
pub open spec fn is_digit(byte: u8) -> bool {
    DIGIT_0 <= byte <= DIGIT_9
}

/// Whether a byte is an ASCII letter.
pub open spec fn is_letter(byte: u8) -> bool {
    (LOWER_A <= byte <= LOWER_Z) || (UPPER_A <= byte <= UPPER_Z)
}

/// Whether a byte is a hexadecimal digit.
pub open spec fn is_hex_digit(byte: u8) -> bool {
    is_digit(byte) || (UPPER_A <= byte <= UPPER_F) || (LOWER_A <= byte <= LOWER_F)
}

/// Whether a byte is a line feed or a carriage return.
pub open spec fn is_line_break(byte: u8) -> bool {
    byte == LINE_FEED || byte == CARRIAGE_RETURN
}

/// Whether a byte belongs to a class.
pub open spec fn in_class(class: ByteClass, byte: u8) -> bool {
    match class {
        ByteClass::Decimal => is_digit(byte),
        ByteClass::Hex => is_hex_digit(byte),
        ByteClass::Binary => byte == DIGIT_0 || byte == DIGIT_1,
        ByteClass::Name => is_digit(byte) || is_letter(byte) || byte == UNDERSCORE,
        ByteClass::Blank => byte == SPACE || byte == TAB,
        ByteClass::LineBreak => is_line_break(byte),
        ByteClass::Inline => !is_line_break(byte),
    }
}

/// Where the run of bytes of a class that starts at `from` ends: the first
/// place at or behind `from` that holds no byte of the class.
pub open spec fn run_end(data: Seq<u8>, from: int, class: ByteClass) -> int
    decreases data.len() - from,
{
    if 0 <= from < data.len() && in_class(class, data[from]) {
        run_end(data, from + 1, class)
    } else {
        from
    }
}

/// What a hexadecimal digit counts.
pub open spec fn digit_value(byte: u8) -> int {
    if is_digit(byte) {
        byte - DIGIT_0
    } else if UPPER_A <= byte <= UPPER_F {
        byte - UPPER_A + 10
    } else {
        byte - LOWER_A + 10
    }
}

/// The number that the digits from `from` up to `to` spell in a radix.
pub open spec fn number_value(data: Seq<u8>, from: int, to: int, radix: int) -> int
    decreases to - from,
{
    if to <= from {
        0
    } else {
        number_value(data, from, to - 1, radix) * radix + digit_value(data[to - 1])
    }
}

/// How many line feeds stand from `from` up to `to`.
pub open spec fn line_feeds(data: Seq<u8>, from: int, to: int) -> int
    decreases to - from,
{
    if to <= from {
        0
    } else {
        line_feeds(data, from, to - 1) + if data[to - 1] == LINE_FEED {
            1int
        } else {
            0int
        }
    }
}

/// Whether a letter stands from `from` up to `to`.
pub open spec fn has_letter(data: Seq<u8>, from: int, to: int) -> bool {
    exists|i: int| from <= i < to && is_letter(#[trigger] data[i])
}

/// Whether a byte may stand right behind a number.
pub open spec fn ends_number(byte: u8) -> bool {
    byte == SPACE || byte == CARRIAGE_RETURN || byte == TAB || byte == LINE_FEED || byte == COMMA || byte
        == CLOSE
}

/// Whether a byte may stand right behind a keyword.
pub open spec fn ends_keyword(byte: u8) -> bool {
    byte == SPACE || byte == COMMA || byte == CLOSE || byte == EQUALS || byte == TAB || byte == LINE_FEED
        || byte == CARRIAGE_RETURN
}

/// Whether a byte may stand right behind the name of a directive.
pub open spec fn ends_directive(byte: u8) -> bool {
    byte == SPACE || byte == TAB || byte == LINE_FEED || byte == CARRIAGE_RETURN
}

/// The text that the bytes from `from` up to `to` spell in UTF-8.
pub open spec fn text_of(data: Seq<u8>, from: int, to: int) -> Result<Seq<char>, ParseFault> {
    if valid_utf8(data.subrange(from, to)) {
        Ok(decode_utf8(data.subrange(from, to)))
    } else {
        Err(ParseFault::Utf8Error)
    }
}

/// Where the lexer stands after one token, and the token or why there is
/// none.
pub struct Scan {
    pub next: int,
    pub outcome: Result<TokenView, ParseFault>,
}

/// A token read up to `next`.
pub open spec fn scanned(next: int, token: TokenView) -> Scan {
    Scan { next, outcome: Ok(token) }
}

/// No token; the lexer stopped at `next`.
pub open spec fn refused(next: int, error: ParseFault) -> Scan {
    Scan { next, outcome: Err(error) }
}

/// A token that holds the text from `from` up to `to`, read up to `next`.
pub open spec fn scanned_text(
    data: Seq<u8>,
    from: int,
    to: int,
    next: int,
    token: spec_fn(Seq<char>) -> TokenView,
) -> Scan {
    match text_of(data, from, to) {
        Ok(text) => scanned(next, token(text)),
        Err(error) => refused(next, error),
    }
}

/// A token of one byte, which stands at `pos`.
pub open spec fn scan_symbol(
    data: Seq<u8>,
    pos: int,
    symbol: u8,
    token: TokenView,
    error: ParseFault,
) -> Scan {
    if pos < 0 || pos >= data.len() {
        refused(pos, ParseFault::OutOfScope)
    } else if data[pos] == symbol {
        scanned(pos + 1, token)
    } else {
        refused(pos + 1, error)
    }
}

/// A number in hexadecimal (`wide` and `narrow` are 4 and 2) or in binary (16
/// and 8), whose digits start at `start`: a byte with the narrow count of
/// digits, a word with the wide count, refused with any other count or
/// where a byte that may not end a number follows the digits.
pub open spec fn scan_digits(
    data: Seq<u8>,
    start: int,
    class: ByteClass,
    radix: int,
    narrow: int,
    wide: int,
) -> Scan {
    let end = run_end(data, start, class);
    let value = number_value(data, start, end, radix);
    if end < data.len() && !ends_number(data[end]) {
        refused(end, ParseFault::InvalidNumberFormat)
    } else if end - start == narrow {
        scanned(end, TokenView::Byte(value as u8))
    } else if end - start == wide {
        scanned(end, TokenView::Word(value as u16))
    } else {
        refused(end, ParseFault::InvalidNumberFormat)
    }
}

/// A number in hexadecimal at `pos`: a `$`, then two digits for a byte or
/// four for a word.
pub open spec fn scan_hex(data: Seq<u8>, pos: int) -> Scan {
    if pos < 0 || pos >= data.len() {
        refused(pos, ParseFault::OutOfScope)
    } else if data[pos] != DOLLAR {
        refused(pos + 1, ParseFault::InvalidNumberFormat)
    } else {
        scan_digits(data, pos + 1, ByteClass::Hex, 16, 2, 4)
    }
}

/// A number in binary at `pos`: a `%`, then eight digits for a byte or
/// sixteen for a word.
pub open spec fn scan_binary(data: Seq<u8>, pos: int) -> Scan {
    if pos < 0 || pos >= data.len() {
        refused(pos, ParseFault::OutOfScope)
    } else if data[pos] != PERCENT {
        refused(pos + 1, ParseFault::InvalidNumberFormat)
    } else {
        scan_digits(data, pos + 1, ByteClass::Binary, 2, 8, 16)
    }
}

/// A number in decimal at `pos`: a byte up to 255, a word up to 65535,
/// refused beyond that or where a byte that may not end a number follows the
/// digits.
pub open spec fn scan_decimal(data: Seq<u8>, pos: int) -> Scan {
    let end = run_end(data, pos, ByteClass::Decimal);
    let value = number_value(data, pos, end, 10);
    if end < data.len() && !ends_number(data[end]) {
        refused(end, ParseFault::InvalidNumberFormat)
    } else if value > 0xFFFF {
        refused(end, ParseFault::InvalidNumberFormat)
    } else if value > 0xFF {
        scanned(end, TokenView::Word(value as u16))
    } else {
        scanned(end, TokenView::Byte(value as u8))
    }
}

/// A name at `pos`: a label if `:` follows it, the instruction whose
/// mnemonic it is if it has three bytes and is one, else a keyword. It must
/// hold a letter, and a byte that may not end a keyword must not follow it.
pub open spec fn scan_keyword(data: Seq<u8>, pos: int) -> Scan {
    let end = run_end(data, pos, ByteClass::Name);
    if end < data.len() && data[end] == COLON {
        if !has_letter(data, pos, end) {
            refused(end + 1, ParseFault::InvalidKeyword)
        } else {
            scanned_text(data, pos, end, end + 1, |text: Seq<char>| TokenView::Branch(text))
        }
    } else if end < data.len() && !ends_keyword(data[end]) {
        refused(end, ParseFault::InvalidKeyword)
    } else if !has_letter(data, pos, end) {
        refused(end, ParseFault::InvalidKeyword)
    } else {
        match mnemonic_at(data, pos, end) {
            Some(position) => scanned(end, TokenView::Instr(position as int)),
            None => scanned_text(data, pos, end, end, |text: Seq<char>| TokenView::Keyword(text)),
        }
    }
}

/// The instruction whose mnemonic the bytes from `from` up to `to` are, in
/// either case.
pub open spec fn mnemonic_at(data: Seq<u8>, from: int, to: int) -> Option<usize> {
    if to - from == 3 {
        mnemonic_index(upper_byte(data[from]), upper_byte(data[from + 1]), upper_byte(data[from + 2]))
    } else {
        None
    }
}

/// The name behind the `.` at `pos`: a local label if `:` follows it, else a
/// directive. It must hold a letter, and only a blank or a line break may
/// follow a directive.
pub open spec fn scan_directive(data: Seq<u8>, pos: int) -> Scan {
    let start = pos + 1;
    let end = run_end(data, start, ByteClass::Name);
    if end < data.len() && data[end] == COLON {
        if !has_letter(data, start, end) {
            refused(end + 1, ParseFault::InvalidDirective)
        } else {
            scanned_text(data, start, end, end + 1, |text: Seq<char>| TokenView::BranchNext(text))
        }
    } else if end < data.len() && !ends_directive(data[end]) {
        refused(end, ParseFault::InvalidDirective)
    } else if !has_letter(data, start, end) {
        refused(end, ParseFault::InvalidDirective)
    } else {
        scanned_text(data, start, end, end, |text: Seq<char>| TokenView::Directive(text))
    }
}

/// Where the string whose text starts at `from` closes: the place of its
/// closing quote. A backslash takes a quote that follows it into the text.
/// Without a closing quote the string is refused; a backslash as the last
/// byte of the data is out of scope.
pub open spec fn string_close(data: Seq<u8>, from: int) -> Result<int, (int, ParseFault)>
    decreases data.len() - from,
{
    if from < 0 || from >= data.len() {
        Err((from, ParseFault::InvalidString))
    } else if data[from] == QUOTE {
        Ok(from)
    } else if data[from] == BACKSLASH {
        if from + 1 >= data.len() {
            Err((from, ParseFault::OutOfScope))
        } else if data[from + 1] == QUOTE {
            string_close(data, from + 2)
        } else {
            string_close(data, from + 1)
        }
    } else {
        string_close(data, from + 1)
    }
}

/// The string behind the `"` at `pos`; its text is what stands between the
/// quotes, as it stands there.
pub open spec fn scan_string(data: Seq<u8>, pos: int) -> Scan {
    match string_close(data, pos + 1) {
        Ok(close) => scanned_text(data, pos + 1, close, close + 1, |text: Seq<char>| TokenView::String(text)),
        Err((at, error)) => refused(at, error),
    }
}

/// The comment that starts with the `;` at `pos` and runs up to the line
/// break or the end of the data; its text starts with the `;`.
pub open spec fn scan_comment(data: Seq<u8>, pos: int) -> Scan {
    let end = run_end(data, pos, ByteClass::Inline);
    scanned_text(data, pos, end, end, |text: Seq<char>| TokenView::Comment(text))
}

/// The run of line breaks at `pos`, which counts its line feeds.
pub open spec fn scan_newline(data: Seq<u8>, pos: int) -> Scan {
    let end = run_end(data, pos, ByteClass::LineBreak);
    scanned(end, TokenView::NewLine(line_feeds(data, pos, end)))
}

/// The run of blanks at `pos`, which counts them.
pub open spec fn scan_whitespace(data: Seq<u8>, pos: int) -> Scan {
    let end = run_end(data, pos, ByteClass::Blank);
    scanned(end, TokenView::Space(end - pos))
}

/// The token that starts at `pos`, told by its first byte.
pub open spec fn scan_token(data: Seq<u8>, pos: int) -> Scan {
    if pos < 0 || pos >= data.len() {
        refused(pos, ParseFault::OutOfScope)
    } else {
        let first = data[pos];
        if first == DOLLAR {
            scan_hex(data, pos)
        } else if first == PERCENT {
            scan_binary(data, pos)
        } else if is_digit(first) {
            scan_decimal(data, pos)
        } else if first == SHARP {
            scanned(pos + 1, TokenView::Sharp)
        } else if is_letter(first) {
            scan_keyword(data, pos)
        } else if first == DOT {
            scan_directive(data, pos)
        } else if first == QUOTE {
            scan_string(data, pos)
        } else if first == SEMICOLON {
            scan_comment(data, pos)
        } else if first == EQUALS {
            scanned(pos + 1, TokenView::Assign)
        } else if first == OPEN {
            scanned(pos + 1, TokenView::OpenParenthesis)
        } else if first == CLOSE {
            scanned(pos + 1, TokenView::CloseParenthesis)
        } else if first == COMMA {
            scanned(pos + 1, TokenView::Comma)
        } else if is_line_break(first) {
            scan_newline(data, pos)
        } else if first == SPACE || first == TAB {
            scan_whitespace(data, pos)
        } else {
            refused(pos, ParseFault::UnknownToken)
        }
    }
}

/// The state in which a run of the lexer ends.
pub struct Lexing {
    pub index: int,
    pub line: int,
    pub column: int,
    pub end: int,
    pub tokens: Seq<TokenInfoView>,
    pub outcome: Result<(), ParseFault>,
}

/// How many bytes stand at `pos` and behind it.
pub open spec fn bytes_left(data: Seq<u8>, pos: int) -> nat {
    if pos < data.len() {
        (data.len() - pos) as nat
    } else {
        0
    }
}

/// The run of the lexer over `data` from `pos` on, which stands in `line` at
/// `column`, with the tokens read before: token after token, each located
/// by its line and by the columns at which it starts and ends, up to the
/// first fault or to the end of the data, where the end marker follows. A
/// token with line feeds starts a new line at column 0.
pub open spec fn lex_from(
    data: Seq<u8>,
    file_id: int,
    pos: int,
    line: int,
    column: int,
    tokens: Seq<TokenInfoView>,
) -> Lexing
    decreases bytes_left(data, pos),
{
    if pos < 0 || pos >= data.len() {
        Lexing {
            index: pos,
            line,
            column,
            end: column,
            tokens: tokens.push(TokenInfoView { line, column, token: TokenView::End, end: column, file_id }),
            outcome: Ok(()),
        }
    } else {
        proof {
            lemma_scan_advances(data, pos);
        }
        let scan = scan_token(data, pos);
        let end = column + (scan.next - pos);
        match scan.outcome {
            Err(error) => Lexing { index: scan.next, line, column, end, tokens, outcome: Err(error) },
            Ok(token) => {
                let read = tokens.push(TokenInfoView { line, column, token, end, file_id });
                match token {
                    TokenView::NewLine(lines) if lines > 0 => lex_from(data, file_id, scan.next, line + lines, 0, read),
                    _ => lex_from(data, file_id, scan.next, line, end, read),
                }
            },
        }
    }
}

/// The tokens of a file, or the fault at which lexing stops.
pub open spec fn lex(data: Seq<u8>, file_id: int) -> Lexing {
    lex_from(data, file_id, 0, 0, 0, Seq::empty())
}

/// A run ends at or behind the place where it starts, and within the data
/// if it starts there.
pub proof fn lemma_run_end_bounds(data: Seq<u8>, from: int, class: ByteClass)
    ensures
        from <= run_end(data, from, class),
        0 <= from <= data.len() ==> run_end(data, from, class) <= data.len(),
        0 <= from ==> (run_end(data, from, class) < data.len() ==> !in_class(
            class,
            data[run_end(data, from, class)],
        )),
    decreases data.len() - from,
{
    if 0 <= from < data.len() && in_class(class, data[from]) {
        lemma_run_end_bounds(data, from + 1, class);
    }
}

/// A string closes, or fails, at or behind the place where its text starts.
pub proof fn lemma_string_close_bounds(data: Seq<u8>, from: int)
    ensures
        match string_close(data, from) {
            Ok(close) => from <= close < data.len(),
            Err((at, _)) => from <= at,
        },
    decreases data.len() - from,
{
    if from < 0 || from >= data.len() {
    } else if data[from] == QUOTE {
    } else if data[from] == BACKSLASH {
        if from + 1 >= data.len() {
        } else if data[from + 1] == QUOTE {
            lemma_string_close_bounds(data, from + 2);
        } else {
            lemma_string_close_bounds(data, from + 1);
        }
    } else {
        lemma_string_close_bounds(data, from + 1);
    }
}

/// Every token that is read takes at least one byte.
pub proof fn lemma_scan_advances(data: Seq<u8>, pos: int)
    requires
        0 <= pos < data.len(),
    ensures
        scan_token(data, pos).outcome is Ok ==> scan_token(data, pos).next > pos,
        scan_token(data, pos).next >= pos,
{
    lemma_run_end_bounds(data, pos + 1, ByteClass::Hex);
    lemma_run_end_bounds(data, pos + 1, ByteClass::Binary);
    lemma_run_end_bounds(data, pos + 1, ByteClass::Name);
    lemma_run_end_bounds(data, pos, ByteClass::Decimal);
    lemma_run_end_bounds(data, pos, ByteClass::Name);
    lemma_run_end_bounds(data, pos, ByteClass::Inline);
    lemma_run_end_bounds(data, pos, ByteClass::LineBreak);
    lemma_run_end_bounds(data, pos, ByteClass::Blank);
    lemma_string_close_bounds(data, pos + 1);
}

/// A base raised to a power.
pub open spec fn power(base: int, exponent: nat) -> int
    decreases exponent,
{
    if exponent == 0 {
        1
    } else {
        base * power(base, (exponent - 1) as nat)
    }
}

/// The radix in which the digits of a class count.
pub open spec fn radix_of(class: ByteClass) -> int {
    match class {
        ByteClass::Hex => 16,
        ByteClass::Binary => 2,
        _ => 10,
    }
}

/// Whether every byte from `from` up to `to` belongs to a class.
pub open spec fn all_in_class(data: Seq<u8>, from: int, to: int, class: ByteClass) -> bool {
    forall|i: int| from <= i < to ==> in_class(class, #[trigger] data[i])
}

/// A number of `n` digits is less than the radix raised to `n`.
pub proof fn lemma_number_bound(data: Seq<u8>, from: int, to: int, class: ByteClass)
    requires
        0 <= from <= to <= data.len(),
        class is Hex || class is Binary || class is Decimal,
        all_in_class(data, from, to, class),
    ensures
        0 <= number_value(data, from, to, radix_of(class)) < power(radix_of(class), (to - from) as nat),
    decreases to - from,
{
    let radix = radix_of(class);
    if to > from {
        lemma_number_bound(data, from, to - 1, class);
        let before = number_value(data, from, to - 1, radix);
        let digit = digit_value(data[to - 1]);
        let bound = power(radix, (to - 1 - from) as nat);
        assert(in_class(class, data[to - 1]));
        assert(0 <= digit < radix);
        assert(before * radix + digit < bound * radix) by (nonlinear_arith)
            requires
                0 <= before < bound,
                0 <= digit < radix,
        ;
        assert(before * radix + digit >= 0) by (nonlinear_arith)
            requires
                0 <= before,
                0 <= digit,
                radix > 0,
        ;
        assert(power(radix, (to - from) as nat) == radix * bound);
        assert(radix * bound == bound * radix) by (nonlinear_arith);
    }
}

/// The powers that bound a byte and a word.
pub proof fn lemma_powers()
    ensures
        power(16, 2) == 0x100,
        power(16, 4) == 0x10000,
        power(2, 8) == 0x100,
        power(2, 16) == 0x10000,
{
    reveal_with_fuel(power, 17);
}

/// A power of a radix does not shrink as the exponent grows.
pub proof fn lemma_power_grows(base: int, low: nat, high: nat)
    requires
        base >= 1,
        low <= high,
    ensures
        1 <= power(base, low) <= power(base, high),
    decreases high,
{
    if low == 0 {
        if high > 0 {
            lemma_power_grows(base, 0, (high - 1) as nat);
            assert(base * power(base, (high - 1) as nat) >= 1) by (nonlinear_arith)
                requires
                    base >= 1,
                    power(base, (high - 1) as nat) >= 1,
            ;
        }
    } else {
        lemma_power_grows(base, (low - 1) as nat, (high - 1) as nat);
        assert(base * power(base, (low - 1) as nat) <= base * power(base, (high - 1) as nat))
            by (nonlinear_arith)
            requires
                base >= 1,
                power(base, (low - 1) as nat) <= power(base, (high - 1) as nat),
        ;
        assert(base * power(base, (low - 1) as nat) >= 1) by (nonlinear_arith)
            requires
                base >= 1,
                power(base, (low - 1) as nat) >= 1,
        ;
    }
}

/// Whether the digits that start at `start` are followed by the end of
/// the data or by a byte that may end a number.
pub open spec fn number_ends(data: Seq<u8>, start: int, class: ByteClass) -> bool {
    run_end(data, start, class) >= data.len() || ends_number(data[run_end(data, start, class)])
}

/// The width of a number follows from its digits. In hexadecimal two digits
/// make a byte and four a word; in binary eight and sixteen do; any other
/// count is refused. In decimal a value up to 255 makes a byte, a greater
/// one up to 65535 a word. The token holds the value that the digits spell,
/// the most significant first, and ends behind the last digit: the byte
/// that follows is not taken. A number is refused wherever a byte follows
/// it that may not.
pub proof fn lemma_number_width(data: Seq<u8>, pos: int)
    requires
        0 <= pos < data.len(),
    ensures
        data[pos] == DOLLAR ==> scan_token(data, pos) == scan_hex(data, pos) && {
            let count = run_end(data, pos + 1, ByteClass::Hex) - (pos + 1);
            let value = number_value(data, pos + 1, pos + 1 + count, 16);
            let scan = scan_hex(data, pos);
            if !number_ends(data, pos + 1, ByteClass::Hex) {
                scan.outcome == Err::<TokenView, ParseFault>(ParseFault::InvalidNumberFormat)
            } else if count == 2 {
                &&& scan.outcome matches Ok(TokenView::Byte(byte)) && byte == value
                &&& value == 16 * digit_value(data[pos + 1]) + digit_value(data[pos + 2])
                &&& scan.next == pos + 3
            } else if count == 4 {
                &&& scan.outcome matches Ok(TokenView::Word(word)) && word == value
                &&& scan.next == pos + 5
            } else {
                scan.outcome == Err::<TokenView, ParseFault>(ParseFault::InvalidNumberFormat)
            }
        },
        data[pos] == PERCENT ==> scan_token(data, pos) == scan_binary(data, pos) && {
            let count = run_end(data, pos + 1, ByteClass::Binary) - (pos + 1);
            let value = number_value(data, pos + 1, pos + 1 + count, 2);
            let scan = scan_binary(data, pos);
            if !number_ends(data, pos + 1, ByteClass::Binary) {
                scan.outcome == Err::<TokenView, ParseFault>(ParseFault::InvalidNumberFormat)
            } else if count == 8 {
                &&& scan.outcome matches Ok(TokenView::Byte(byte)) && byte == value
                &&& scan.next == pos + 9
            } else if count == 16 {
                &&& scan.outcome matches Ok(TokenView::Word(word)) && word == value
                &&& scan.next == pos + 17
            } else {
                scan.outcome == Err::<TokenView, ParseFault>(ParseFault::InvalidNumberFormat)
            }
        },
        is_digit(data[pos]) ==> scan_token(data, pos) == scan_decimal(data, pos) && {
            let end = run_end(data, pos, ByteClass::Decimal);
            let value = number_value(data, pos, end, 10);
            let scan = scan_decimal(data, pos);
            if !number_ends(data, pos, ByteClass::Decimal) {
                scan.outcome == Err::<TokenView, ParseFault>(ParseFault::InvalidNumberFormat)
            } else if value <= 0xFF {
                &&& scan.outcome matches Ok(TokenView::Byte(byte)) && byte == value
                &&& scan.next == end
            } else if value <= 0xFFFF {
                &&& scan.outcome matches Ok(TokenView::Word(word)) && word == value
                &&& scan.next == end
            } else {
                scan.outcome == Err::<TokenView, ParseFault>(ParseFault::InvalidNumberFormat)
            }
        },
{
    lemma_powers();
    if data[pos] == DOLLAR {
        lemma_run_end_bounds(data, pos + 1, ByteClass::Hex);
        lemma_run_in_class(data, pos + 1, ByteClass::Hex);
        lemma_number_bound(data, pos + 1, run_end(data, pos + 1, ByteClass::Hex), ByteClass::Hex);
        if run_end(data, pos + 1, ByteClass::Hex) == pos + 3 {
            reveal_with_fuel(number_value, 3);
        }
    } else if data[pos] == PERCENT {
        lemma_run_end_bounds(data, pos + 1, ByteClass::Binary);
        lemma_run_in_class(data, pos + 1, ByteClass::Binary);
        lemma_number_bound(data, pos + 1, run_end(data, pos + 1, ByteClass::Binary), ByteClass::Binary);
    } else if is_digit(data[pos]) {
        lemma_run_end_bounds(data, pos, ByteClass::Decimal);
        lemma_run_in_class(data, pos, ByteClass::Decimal);
        lemma_number_bound(data, pos, run_end(data, pos, ByteClass::Decimal), ByteClass::Decimal);
    }
}

/// Every byte of a run belongs to the run's class.
pub proof fn lemma_run_in_class(data: Seq<u8>, from: int, class: ByteClass)
    requires
        0 <= from,
    ensures
        all_in_class(data, from, run_end(data, from, class), class),
    decreases data.len() - from,
{
    if 0 <= from < data.len() && in_class(class, data[from]) {
        lemma_run_in_class(data, from + 1, class);
        assert forall|i: int| from <= i < run_end(data, from, class) implies in_class(
            class,
            #[trigger] data[i],
        ) by {
            if i > from {
                assert(in_class(class, data[i]));
            }
        }
    }
}

/// A run that ends without a fault has read every byte, and its last token
/// is the end marker, which stands only there among the tokens that the run
/// added.
pub proof fn lemma_lex_ends_with_marker(
    data: Seq<u8>,
    file_id: int,
    pos: int,
    line: int,
    column: int,
    tokens: Seq<TokenInfoView>,
)
    requires
        0 <= pos <= data.len(),
    ensures
        lex_from(data, file_id, pos, line, column, tokens).tokens.len() >= tokens.len(),
        lex_from(data, file_id, pos, line, column, tokens).tokens.take(tokens.len() as int) == tokens,
        lex_from(data, file_id, pos, line, column, tokens).outcome is Ok ==> {
            &&& lex_from(data, file_id, pos, line, column, tokens).tokens.len() > tokens.len()
            &&& lex_from(data, file_id, pos, line, column, tokens).tokens.last().token is End
            &&& lex_from(data, file_id, pos, line, column, tokens).index == data.len()
        },
    decreases bytes_left(data, pos),
{
    if pos >= data.len() {
        let marker = TokenInfoView { line, column, token: TokenView::End, end: column, file_id };
        assert(tokens.push(marker).take(tokens.len() as int) =~= tokens);
    } else {
        lemma_scan_advances(data, pos);
        lemma_scan_within(data, pos);
        let scan = scan_token(data, pos);
        let end = column + (scan.next - pos);
        match scan.outcome {
            Err(error) => {
                assert(tokens.take(tokens.len() as int) =~= tokens);
            },
            Ok(token) => {
                let read = tokens.push(TokenInfoView { line, column, token, end, file_id });
                match token {
                    TokenView::NewLine(lines) if lines > 0 => {
                        lemma_lex_ends_with_marker(data, file_id, scan.next, line + lines, 0, read);
                        let run = lex_from(data, file_id, scan.next, line + lines, 0, read);
                        assert(run.tokens.take(tokens.len() as int) =~= run.tokens.take(read.len() as int).take(
                            tokens.len() as int,
                        ));
                        assert(read.take(tokens.len() as int) =~= tokens);
                    },
                    _ => {
                        lemma_lex_ends_with_marker(data, file_id, scan.next, line, end, read);
                        let run = lex_from(data, file_id, scan.next, line, end, read);
                        assert(run.tokens.take(tokens.len() as int) =~= run.tokens.take(read.len() as int).take(
                            tokens.len() as int,
                        ));
                        assert(read.take(tokens.len() as int) =~= tokens);
                    },
                }
            },
        }
    }
}

/// No token reaches beyond the data.
pub proof fn lemma_scan_within(data: Seq<u8>, pos: int)
    requires
        0 <= pos < data.len(),
    ensures
        scan_token(data, pos).outcome is Ok ==> scan_token(data, pos).next <= data.len(),
{
    lemma_run_end_bounds(data, pos + 1, ByteClass::Hex);
    lemma_run_end_bounds(data, pos + 1, ByteClass::Binary);
    lemma_run_end_bounds(data, pos + 1, ByteClass::Name);
    lemma_run_end_bounds(data, pos, ByteClass::Decimal);
    lemma_run_end_bounds(data, pos, ByteClass::Name);
    lemma_run_end_bounds(data, pos, ByteClass::Inline);
    lemma_run_end_bounds(data, pos, ByteClass::LineBreak);
    lemma_run_end_bounds(data, pos, ByteClass::Blank);
    lemma_string_close_bounds(data, pos + 1);
}

/// A token of line breaks counts at most as many lines as it has bytes.
pub proof fn lemma_line_break_token(data: Seq<u8>, pos: int)
    requires
        0 <= pos < data.len(),
    ensures
        scan_token(data, pos).outcome matches Ok(TokenView::NewLine(lines)) ==> 0 <= lines
            <= scan_token(data, pos).next - pos,
{
    lemma_run_end_bounds(data, pos, ByteClass::LineBreak);
    lemma_line_feeds_bounds(data, pos, run_end(data, pos, ByteClass::LineBreak));
}

/// A run of bytes holds at most as many line feeds as bytes.
pub proof fn lemma_line_feeds_bounds(data: Seq<u8>, from: int, to: int)
    requires
        from <= to,
    ensures
        0 <= line_feeds(data, from, to) <= to - from,
    decreases to - from,
{
    if to > from {
        lemma_line_feeds_bounds(data, from, to - 1);
    }
}

} // verus!
