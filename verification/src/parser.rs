//! The lexer: source bytes in, located tokens out.

use vstd::prelude::*;
use vstd::slice::slice_subrange;
use vstd::utf8::{decode_utf8, valid_utf8};
use core::str::Utf8Error;
use crate::context::Context;
use crate::opcode::find_instr;
use crate::scan::{
    BACKSLASH, ByteClass, CARRIAGE_RETURN, CLOSE, COLON, COMMA, DIGIT_0, DIGIT_1, DIGIT_9, DOLLAR,
    DOT, EQUALS, LINE_FEED, LOWER_A, LOWER_F, LOWER_Z, OPEN, PERCENT, QUOTE, SEMICOLON, SHARP,
    SPACE, Scan, TAB, UNDERSCORE, UPPER_A, UPPER_F, UPPER_Z, all_in_class, has_letter, is_letter,
    lemma_line_break_token, lemma_line_feeds_bounds, lemma_number_bound, lemma_power_grows,
    lemma_powers, lemma_scan_advances, lex_from, line_feeds, number_value, radix_of, run_end,
    scan_binary, scan_comment, scan_decimal, scan_digits, scan_directive, scan_hex, scan_keyword,
    scan_newline, scan_string, scan_symbol, scan_token, scan_whitespace, string_close, text_of,
};
use crate::tool::upper_case_byte;

verus! {

/// The lexer's state over the bytes of one file.
pub struct Parser<'a> {
    pub index: usize,
    pub line: usize,
    pub column: usize,
    pub end: usize,
    pub size: usize,
    pub context: Context,
    pub data: &'a [u8],
    pub file_id: usize,
}

/// A lexical unit.
#[derive(Debug, PartialEq)]
pub enum Token {
    Instr(usize),
    Keyword(String),
    String(String),
    Directive(String),
    Comment(String),
    Assign,
    Comma,
    OpenParenthesis,
    CloseParenthesis,
    Sharp,
    Branch(String),
    BranchNext(String),
    Byte(u8),
    Word(u16),
    NewLine(usize),
    Space(usize),
    End,
}

/// A `Token` with its text as a character sequence.
pub enum TokenView {
    Instr(int),
    Keyword(Seq<char>),
    String(Seq<char>),
    Directive(Seq<char>),
    Comment(Seq<char>),
    Assign,
    Comma,
    OpenParenthesis,
    CloseParenthesis,
    Sharp,
    Branch(Seq<char>),
    BranchNext(Seq<char>),
    Byte(u8),
    Word(u16),
    NewLine(int),
    Space(int),
    End,
}

/// The kind of a `Token`, without what it holds.
#[derive(Debug, PartialEq, Eq, Copy, Clone, Structural)]
pub enum TokenType {
    Instr,
    Keyword,
    String,
    Directive,
    Comment,
    Assign,
    Comma,
    OpenParenthesis,
    CloseParenthesis,
    Sharp,
    Branch,
    BranchNext,
    Byte,
    Word,
    NewLine,
    Space,
    End,
}

/// A token and where it stands: its file, its line, and the columns at which
/// it starts and ends.
#[derive(Debug)]
pub struct TokenInfo {
    pub line: usize,
    pub column: usize,
    pub token: Token,
    pub end: usize,
    pub file_id: usize,
}

/// A `TokenInfo` as plain values.
pub struct TokenInfoView {
    pub line: int,
    pub column: int,
    pub token: TokenView,
    pub end: int,
    pub file_id: int,
}

/// Why lexing stopped. Where a text is no UTF-8, the fault holds what the
/// decoder said of it.
#[derive(Debug, PartialEq, Eq, Copy, Clone)]
pub enum ParseError {
    OutOfScope,
    UnexpectedSymbol,
    UnknownToken,
    InvalidNumberFormat,
    InvalidCommentFormat,
    InvalidKeyword,
    InvalidDirective,
    InvalidString,
    Utf8Error(Utf8Error),
}

/// A `ParseError` by its kind alone.
pub enum ParseFault {
    OutOfScope,
    UnexpectedSymbol,
    UnknownToken,
    InvalidNumberFormat,
    InvalidCommentFormat,
    InvalidKeyword,
    InvalidDirective,
    InvalidString,
    Utf8Error,
}

impl View for ParseError {
    type V = ParseFault;

    open spec fn view(&self) -> ParseFault {
        match self {
            ParseError::OutOfScope => ParseFault::OutOfScope,
            ParseError::UnexpectedSymbol => ParseFault::UnexpectedSymbol,
            ParseError::UnknownToken => ParseFault::UnknownToken,
            ParseError::InvalidNumberFormat => ParseFault::InvalidNumberFormat,
            ParseError::InvalidCommentFormat => ParseFault::InvalidCommentFormat,
            ParseError::InvalidKeyword => ParseFault::InvalidKeyword,
            ParseError::InvalidDirective => ParseFault::InvalidDirective,
            ParseError::InvalidString => ParseFault::InvalidString,
            ParseError::Utf8Error(_) => ParseFault::Utf8Error,
        }
    }
}

/// Whether a result is a fault of the kind `fault`.
pub open spec fn lex_fails<T>(result: Result<T, ParseError>, fault: ParseFault) -> bool {
    result matches Err(error) && error@ == fault
}

impl View for Token {
    type V = TokenView;

    open spec fn view(&self) -> TokenView {
        match self {
            Token::Instr(position) => TokenView::Instr(*position as int),
            Token::Keyword(text) => TokenView::Keyword(text@),
            Token::String(text) => TokenView::String(text@),
            Token::Directive(text) => TokenView::Directive(text@),
            Token::Comment(text) => TokenView::Comment(text@),
            Token::Assign => TokenView::Assign,
            Token::Comma => TokenView::Comma,
            Token::OpenParenthesis => TokenView::OpenParenthesis,
            Token::CloseParenthesis => TokenView::CloseParenthesis,
            Token::Sharp => TokenView::Sharp,
            Token::Branch(text) => TokenView::Branch(text@),
            Token::BranchNext(text) => TokenView::BranchNext(text@),
            Token::Byte(number) => TokenView::Byte(*number),
            Token::Word(number) => TokenView::Word(*number),
            Token::NewLine(lines) => TokenView::NewLine(*lines as int),
            Token::Space(width) => TokenView::Space(*width as int),
            Token::End => TokenView::End,
        }
    }
}

impl DeepView for Token {
    type V = TokenView;

    open spec fn deep_view(&self) -> TokenView {
        self@
    }
}

impl View for TokenInfo {
    type V = TokenInfoView;

    open spec fn view(&self) -> TokenInfoView {
        TokenInfoView {
            line: self.line as int,
            column: self.column as int,
            token: self.token@,
            end: self.end as int,
            file_id: self.file_id as int,
        }
    }
}

impl DeepView for TokenInfo {
    type V = TokenInfoView;

    open spec fn deep_view(&self) -> TokenInfoView {
        self@
    }
}

impl TokenView {
    /// The kind of the token.
    pub open spec fn kind(self) -> TokenType {
        match self {
            TokenView::Instr(_) => TokenType::Instr,
            TokenView::Keyword(_) => TokenType::Keyword,
            TokenView::String(_) => TokenType::String,
            TokenView::Directive(_) => TokenType::Directive,
            TokenView::Comment(_) => TokenType::Comment,
            TokenView::Assign => TokenType::Assign,
            TokenView::Comma => TokenType::Comma,
            TokenView::OpenParenthesis => TokenType::OpenParenthesis,
            TokenView::CloseParenthesis => TokenType::CloseParenthesis,
            TokenView::Sharp => TokenType::Sharp,
            TokenView::Branch(_) => TokenType::Branch,
            TokenView::BranchNext(_) => TokenType::BranchNext,
            TokenView::Byte(_) => TokenType::Byte,
            TokenView::Word(_) => TokenType::Word,
            TokenView::NewLine(_) => TokenType::NewLine,
            TokenView::Space(_) => TokenType::Space,
            TokenView::End => TokenType::End,
        }
    }
}

/// `core::str::Utf8Error`, which says where bytes stop being UTF-8. It is
/// never looked into.
#[verifier::external_type_specification]
#[verifier::external_body]
pub struct ExUtf8Error(Utf8Error);

/// `core::str::from_utf8`: the text that the bytes spell, if and only if they
/// are well-formed UTF-8.
#[verifier::external_body]
fn text_from_utf8(bytes: &[u8]) -> (result: Result<String, Utf8Error>)
    ensures
        result is Ok <==> valid_utf8(bytes@),
        result matches Ok(text) ==> text@ == decode_utf8(bytes@),
{
    match core::str::from_utf8(bytes) {
        Ok(text) => Ok(text.to_owned()),
        Err(error) => Err(error),
    }
}

impl<'a> Parser<'a> {
    /// Whether the lexer stands within its data, with its line and columns
    /// no further than bytes were read.
    pub open spec fn wf(&self) -> bool {
        &&& self.size == self.data@.len()
        &&& self.index <= self.size
        &&& self.column <= self.end
        &&& self.end <= self.index
        &&& self.line <= self.index
    }

    /// Whether the lexer read the bytes of `scan` from where `before` stood
    /// and nothing else changed.
    pub open spec fn read(&self, before: &Self, scan: Scan) -> bool {
        &&& self.wf()
        &&& self.index == scan.next
        &&& self.end == before.end + (scan.next - before.index)
        &&& self.same_place(before)
    }

    /// Whether two states of the lexer agree in all but the cursor and the
    /// end column.
    pub open spec fn same_place(&self, before: &Self) -> bool {
        &&& self.line == before.line
        &&& self.column == before.column
        &&& self.size == before.size
        &&& self.data == before.data
        &&& self.file_id == before.file_id
        &&& self.context == before.context
    }

    /// A lexer at the start of `data`, which is the file `file_id`; its tokens
    /// go to `context`.
    pub fn new(file_id: usize, data: &'a [u8], context: Context) -> (parser: Self)
        ensures
            parser.wf(),
            parser.index == 0,
            parser.line == 0,
            parser.column == 0,
            parser.end == 0,
            parser.context == context,
            parser.data == data,
            parser.file_id == file_id,
    {
        let size = data.len();
        Self { index: 0, line: 0, column: 0, end: 0, size, context, data, file_id }
    }

    /// Appends a token that stands where the lexer's line and columns say.
    fn add_token(&mut self, token: Token)
        ensures
            final(self).context.tokens.deep_view() == old(self).context.tokens.deep_view().push(
                TokenInfoView {
                    line: old(self).line as int,
                    column: old(self).column as int,
                    token: token@,
                    end: old(self).end as int,
                    file_id: old(self).file_id as int,
                },
            ),
            final(self).index == old(self).index,
            final(self).line == old(self).line,
            final(self).column == old(self).column,
            final(self).end == old(self).end,
            final(self).size == old(self).size,
            final(self).data == old(self).data,
            final(self).file_id == old(self).file_id,
            kept_but_tokens(old(self).context, final(self).context),
    {
        let info = TokenInfo {
            line: self.line,
            column: self.column,
            end: self.end,
            token,
            file_id: self.file_id,
        };
        self.context.tokens.push(info);
        assert(self.context.tokens.deep_view() =~= old(self).context.tokens.deep_view().push(info@));
    }

    /// Reads the data from the cursor to its end and appends the tokens, the
    /// end marker last, to those of the context; or stops at the first fault,
    /// which the line and the columns of the lexer then locate.
    pub fn parse(&mut self) -> (result: Result<(), ParseError>)
        requires
            old(self).wf(),
            old(self).column == old(self).end,
        ensures
            final(self).lexed(old(self), result),
    {
        self.inner_parse()
    }

    /// Reads token after token up to the end of the data.
    fn inner_parse(&mut self) -> (result: Result<(), ParseError>)
        requires
            old(self).wf(),
            old(self).column == old(self).end,
        ensures
            final(self).lexed(old(self), result),
    {
        let ghost goal = lex_from(
            self.data@,
            self.file_id as int,
            self.index as int,
            self.line as int,
            self.column as int,
            self.context.tokens.deep_view(),
        );
        while self.size > self.index
            invariant
                self.wf(),
                self.column == self.end,
                self.data == old(self).data,
                self.file_id == old(self).file_id,
                self.size == old(self).size,
                kept_but_tokens(old(self).context, self.context),
                goal == lex_from(
                    old(self).data@,
                    old(self).file_id as int,
                    old(self).index as int,
                    old(self).line as int,
                    old(self).column as int,
                    old(self).context.tokens.deep_view(),
                ),
                goal == lex_from(
                    self.data@,
                    self.file_id as int,
                    self.index as int,
                    self.line as int,
                    self.column as int,
                    self.context.tokens.deep_view(),
                ),
            decreases self.size - self.index,
        {
            let ghost start = self.index as int;
            proof {
                lemma_scan_advances(self.data@, start);
                lemma_line_break_token(self.data@, start);
            }
            let token = self.next()?;
            let mut total_lines: usize = 0;
            if let Token::NewLine(lines) = token {
                total_lines = lines;
            }
            self.add_token(token);

            if total_lines > 0 {
                self.end = 0;
                self.line += total_lines;
            }
            self.column = self.end;
        }
        self.add_token(Token::End);
        Ok(())
    }

    /// Whether the lexer stands, after a run from `before`, as `lex_from`
    /// says, with `result` as the run's outcome.
    pub open spec fn lexed(&self, before: &Self, result: Result<(), ParseError>) -> bool {
        let run = lex_from(
            before.data@,
            before.file_id as int,
            before.index as int,
            before.line as int,
            before.column as int,
            before.context.tokens.deep_view(),
        );
        &&& self.index == run.index
        &&& self.line == run.line
        &&& self.column == run.column
        &&& self.end == run.end
        &&& self.context.tokens.deep_view() == run.tokens
        &&& match run.outcome {
            Ok(_) => result is Ok,
            Err(fault) => lex_fails(result, fault),
        }
        &&& self.data == before.data
        &&& self.file_id == before.file_id
        &&& self.size == before.size
        &&& kept_but_tokens(before.context, self.context)
    }

    /// The byte under the cursor.
    fn peek(&self) -> (result: Result<u8, ParseError>)
        requires
            self.wf(),
        ensures
            self.index >= self.size ==> lex_fails(result, ParseFault::OutOfScope),
            self.index < self.size ==> result == Ok::<u8, ParseError>(self.data@[self.index as int]),
    {
        self.empty_check()?;
        Ok(self.data[self.index])
    }

    /// The byte behind the one under the cursor.
    fn peek2(&self) -> (result: Result<u8, ParseError>)
        requires
            self.wf(),
        ensures
            self.index + 1 >= self.size ==> lex_fails(result, ParseFault::OutOfScope),
            self.index + 1 < self.size ==> result == Ok::<u8, ParseError>(self.data@[self.index + 1]),
    {
        self.empty_check2()?;
        Ok(self.data[self.index + 1])
    }

    /// Takes the byte under the cursor.
    fn eat(&mut self) -> (result: Result<u8, ParseError>)
        requires
            old(self).wf(),
        ensures
            final(self).wf(),
            final(self).same_place(old(self)),
            old(self).index >= old(self).size ==> lex_fails(result, ParseFault::OutOfScope)
                && final(self).index == old(self).index && final(self).end == old(self).end,
            old(self).index < old(self).size ==> result == Ok::<u8, ParseError>(
                old(self).data@[old(self).index as int],
            ) && final(self).index == old(self).index + 1 && final(self).end == old(self).end + 1,
    {
        self.empty_check()?;
        self.index += 1;
        self.end += 1;
        Ok(self.data[self.index - 1])
    }

    /// Takes the byte under the cursor, which must be `byte`; if it is another, `error` is the fault.
    fn eat_expected(&mut self, byte: u8, error: ParseError) -> (result: Result<(), ParseError>)
        requires
            old(self).wf(),
        ensures
            final(self).read(old(self), scan_symbol(old(self).data@, old(self).index as int, byte, TokenView::End, error@)),
            match scan_symbol(old(self).data@, old(self).index as int, byte, TokenView::End, error@).outcome {
                Ok(_) => result is Ok,
                Err(fault) => lex_fails(result, fault),
            },
    {
        if self.eat()? != byte {
            return Err(error);
        }
        Ok(())
    }

    /// Whether a byte stands under the cursor.
    fn empty_check(&self) -> (result: Result<(), ParseError>)
        ensures
            self.index >= self.size ==> lex_fails(result, ParseFault::OutOfScope),
            self.index < self.size ==> result is Ok,
    {
        if self.index >= self.size {
            Err(ParseError::OutOfScope)
        } else {
            Ok(())
        }
    }

    /// Whether a byte stands behind the one under the cursor.
    fn empty_check2(&self) -> (result: Result<(), ParseError>)
        ensures
            self.index + 1 >= self.size ==> lex_fails(result, ParseFault::OutOfScope),
            self.index + 1 < self.size ==> result is Ok,
    {
        if self.index >= self.size || self.size - self.index <= 1 {
            Err(ParseError::OutOfScope)
        } else {
            Ok(())
        }
    }

    /// Hands the byte taken last back.
    fn dec(&mut self) -> (result: Result<(), ParseError>)
        requires
            old(self).wf(),
            old(self).column < old(self).end,
            old(self).line < old(self).index,
        ensures
            final(self).wf(),
            final(self).same_place(old(self)),
            result is Ok,
            final(self).index == old(self).index - 1,
            final(self).end == old(self).end - 1,
    {
        if self.index > 0 {
            self.index -= 1;
            self.end -= 1;
            Ok(())
        } else {
            Err(ParseError::OutOfScope)
        }
    }

    /// The text that the bytes from `from` up to `to` spell.
    fn text(&self, from: usize, to: usize) -> (result: Result<String, ParseError>)
        requires
            self.wf(),
            from <= to <= self.size,
        ensures
            match text_of(self.data@, from as int, to as int) {
                Ok(text) => result matches Ok(found) && found@ == text,
                Err(error) => lex_fails(result, error),
            },
    {
        match text_from_utf8(slice_subrange(self.data, from, to)) {
            Ok(text) => Ok(text),
            Err(error) => Err(ParseError::Utf8Error(error)),
        }
    }

    /// Reads the token that starts under the cursor, told by its first byte.
    fn next(&mut self) -> (result: Result<Token, ParseError>)
        requires
            old(self).wf(),
            old(self).column == old(self).end,
        ensures
            final(self).read(old(self), scan_token(old(self).data@, old(self).index as int)),
            match scan_token(old(self).data@, old(self).index as int).outcome {
                Ok(token) => result matches Ok(found) && found@ == token,
                Err(error) => lex_fails(result, error),
            },
    {
        let first = self.peek()?;
        if first == DOLLAR {
            self.parse_hex()
        } else if first == PERCENT {
            self.parse_binary()
        } else if DIGIT_0 <= first && first <= DIGIT_9 {
            self.parse_absolute_decimal()
        } else if first == SHARP {
            self.parse_sharp()
        } else if (LOWER_A <= first && first <= LOWER_Z) || (UPPER_A <= first && first <= UPPER_Z) {
            self.parse_keyword()
        } else if first == DOT {
            self.parse_directive()
        } else if first == QUOTE {
            self.parse_string()
        } else if first == SEMICOLON {
            self.parse_comment()
        } else if first == EQUALS {
            self.parse_assign()
        } else if first == OPEN {
            self.parse_open_parenthesis()
        } else if first == CLOSE {
            self.parse_close_parenthesis()
        } else if first == COMMA {
            self.parse_comma()
        } else if first == CARRIAGE_RETURN || first == LINE_FEED {
            self.parse_newline()
        } else if first == SPACE || first == TAB {
            self.parse_whitespace()
        } else {
            Err(ParseError::UnknownToken)
        }
    }

    /// Whether the lexer read the bytes of `scan` from where `before` stood
    /// and hands out its token or its fault.
    pub open spec fn scanned_from(
        &self,
        before: &Self,
        scan: Scan,
        result: Result<Token, ParseError>,
    ) -> bool {
        &&& self.read(before, scan)
        &&& match scan.outcome {
            Ok(token) => result matches Ok(found) && found@ == token,
            Err(error) => lex_fails(result, error),
        }
    }

    /// Reads the digits of a number in hexadecimal (`hex`) or in binary,
    /// behind the sign that told which.
    fn parse_digits(&mut self, hex: bool) -> (result: Result<Token, ParseError>)
        requires
            old(self).wf(),
        ensures
            final(self).scanned_from(
                old(self),
                if hex {
                    scan_digits(old(self).data@, old(self).index as int, ByteClass::Hex, 16, 2, 4)
                } else {
                    scan_digits(old(self).data@, old(self).index as int, ByteClass::Binary, 2, 8, 16)
                },
                result,
            ),
    {
        let ghost start = self.index as int;
        let ghost class = if hex {
            ByteClass::Hex
        } else {
            ByteClass::Binary
        };
        let radix: u32 = if hex {
            16
        } else {
            2
        };
        let narrow: usize = if hex {
            2
        } else {
            8
        };
        let wide: usize = if hex {
            4
        } else {
            16
        };
        let mut number: u32 = 0;
        let mut count: usize = 0;

        loop
            invariant
                self.wf(),
                self.same_place(old(self)),
                start == old(self).index,
                start <= self.index,
                self.end == old(self).end + (self.index - start),
                class == (if hex {
                    ByteClass::Hex
                } else {
                    ByteClass::Binary
                }),
                radix == radix_of(class),
                wide == (if hex {
                    4int
                } else {
                    16int
                }),
                run_end(self.data@, start, class) == run_end(self.data@, self.index as int, class),
                all_in_class(self.data@, start, self.index as int, class),
                count == self.index - start,
                count <= wide ==> number == number_value(self.data@, start, self.index as int, radix as int),
                number < 0x10000,
            ensures
                self.index == run_end(self.data@, start, class),
            decreases self.size - self.index,
        {
            let digit: u32 = match self.peek() {
                Ok(byte) => {
                    if byte == DIGIT_0 || byte == DIGIT_1 {
                        (byte - DIGIT_0) as u32
                    } else if !hex {
                        break ;
                    } else if DIGIT_0 <= byte && byte <= DIGIT_9 {
                        (byte - DIGIT_0) as u32
                    } else if UPPER_A <= byte && byte <= UPPER_F {
                        (byte - UPPER_A) as u32 + 10
                    } else if LOWER_A <= byte && byte <= LOWER_F {
                        (byte - LOWER_A) as u32 + 10
                    } else {
                        break ;
                    }
                },
                Err(_) => {
                    break ;
                },
            };
            if count < wide {
                proof {
                    lemma_number_bound(self.data@, start, self.index + 1, class);
                    lemma_power_grows(radix as int, (count + 1) as nat, wide as nat);
                    lemma_powers();
                }
                number = number * radix + digit;
            }
            count += 1;
            let _ = self.eat();
        }

        if let Ok(byte) = self.peek() {
            if !(byte == SPACE || byte == CARRIAGE_RETURN || byte == TAB || byte == LINE_FEED || byte == COMMA || byte == CLOSE) {
                return Err(ParseError::InvalidNumberFormat);
            }
        }
        proof {
            lemma_number_bound(self.data@, start, self.index as int, class);
            lemma_powers();
        }
        if count == narrow {
            Ok(Token::Byte(number as u8))
        } else if count == wide {
            Ok(Token::Word(number as u16))
        } else {
            Err(ParseError::InvalidNumberFormat)
        }
    }

    /// Reads a number in hexadecimal: a `$`, then two digits for a byte or four for a word. The
    /// byte behind the digits is left under the cursor.
    pub fn parse_hex(&mut self) -> (result: Result<Token, ParseError>)
        requires
            old(self).wf(),
        ensures
            final(self).scanned_from(old(self), scan_hex(old(self).data@, old(self).index as int), result),
    {
        self.eat_expected(DOLLAR, ParseError::InvalidNumberFormat)?;
        self.parse_digits(true)
    }

    /// Reads a number in binary: a `%`, then eight digits for a byte or sixteen for a word. The
    /// byte behind the digits is left under the cursor.
    pub fn parse_binary(&mut self) -> (result: Result<Token, ParseError>)
        requires
            old(self).wf(),
        ensures
            final(self).scanned_from(old(self), scan_binary(old(self).data@, old(self).index as int), result),
    {
        self.eat_expected(PERCENT, ParseError::InvalidNumberFormat)?;
        self.parse_digits(false)
    }

    /// Reads a number in decimal: a byte up to 255, a word above. The byte behind the digits is
    /// left under the cursor.
    pub fn parse_absolute_decimal(&mut self) -> (result: Result<Token, ParseError>)
        requires
            old(self).wf(),
        ensures
            final(self).scanned_from(old(self), scan_decimal(old(self).data@, old(self).index as int), result),
    {
        let ghost start = self.index as int;
        let mut decimal_number: u32 = 0;

        loop
            invariant
                self.wf(),
                self.same_place(old(self)),
                start == old(self).index,
                start <= self.index,
                self.end == old(self).end + (self.index - start),
                run_end(self.data@, start, ByteClass::Decimal) == run_end(
                    self.data@,
                    self.index as int,
                    ByteClass::Decimal,
                ),
                decimal_number <= 0xFFFF ==> decimal_number == number_value(
                    self.data@,
                    start,
                    self.index as int,
                    10,
                ),
                decimal_number > 0xFFFF ==> number_value(self.data@, start, self.index as int, 10) > 0xFFFF,
                decimal_number < 0xA0000,
            ensures
                self.index == run_end(self.data@, start, ByteClass::Decimal),
            decreases self.size - self.index,
        {
            let digit: u32 = match self.peek() {
                Ok(byte) => {
                    if DIGIT_0 <= byte && byte <= DIGIT_9 {
                        (byte - DIGIT_0) as u32
                    } else {
                        break ;
                    }
                },
                Err(_) => {
                    break ;
                },
            };
            if decimal_number <= 0xFFFF {
                decimal_number = decimal_number * 10 + digit;
            }
            let _ = self.eat();
        }

        if let Ok(byte) = self.peek() {
            if !(byte == SPACE || byte == CARRIAGE_RETURN || byte == TAB || byte == LINE_FEED || byte == COMMA || byte == CLOSE) {
                return Err(ParseError::InvalidNumberFormat);
            }
        }
        if decimal_number > 0xFFFF {
            Err(ParseError::InvalidNumberFormat)
        } else if decimal_number > 0xFF {
            Ok(Token::Word(decimal_number as u16))
        } else {
            Ok(Token::Byte(decimal_number as u8))
        }
    }

    /// Reads the bytes of a name from the cursor on. Says whether a letter
    /// was among them.
    fn parse_name(&mut self) -> (valid: bool)
        requires
            old(self).wf(),
        ensures
            final(self).wf(),
            final(self).same_place(old(self)),
            final(self).index == run_end(old(self).data@, old(self).index as int, ByteClass::Name),
            final(self).end == old(self).end + (final(self).index - old(self).index),
            old(self).index <= final(self).index,
            valid == has_letter(old(self).data@, old(self).index as int, final(self).index as int),
    {
        let ghost start = self.index as int;
        let mut valid = false;
        loop
            invariant
                self.wf(),
                self.same_place(old(self)),
                start == old(self).index,
                start <= self.index,
                self.end == old(self).end + (self.index - start),
                run_end(self.data@, start, ByteClass::Name) == run_end(self.data@, self.index as int, ByteClass::Name),
                valid == has_letter(self.data@, start, self.index as int),
            ensures
                self.index == run_end(self.data@, start, ByteClass::Name),
            decreases self.size - self.index,
        {
            match self.peek() {
                Ok(byte) => {
                    if (LOWER_A <= byte && byte <= LOWER_Z) || (UPPER_A <= byte && byte <= UPPER_Z) {
                        valid = true;
                        assert(is_letter(self.data@[self.index as int]));
                    } else if (DIGIT_0 <= byte && byte <= DIGIT_9) || byte == UNDERSCORE {
                        assert(!is_letter(self.data@[self.index as int]));
                    } else {
                        break ;
                    }
                },
                Err(_) => {
                    break ;
                },
            }
            let _ = self.eat();
        }
        valid
    }

    /// Reads a name: a label, an instruction or a keyword.
    fn parse_keyword(&mut self) -> (result: Result<Token, ParseError>)
        requires
            old(self).wf(),
        ensures
            final(self).scanned_from(old(self), scan_keyword(old(self).data@, old(self).index as int), result),
    {
        let start = self.index;
        let valid = self.parse_name();
        let mut branch = false;

        if let Ok(byte) = self.peek() {
            if byte == COLON {
                branch = true;
                self.eat()?;
            } else if !(byte == SPACE || byte == COMMA || byte == CLOSE || byte == EQUALS || byte == TAB || byte
                == LINE_FEED || byte == CARRIAGE_RETURN) {
                return Err(ParseError::InvalidKeyword);
            }
        }
        if !valid {
            return Err(ParseError::InvalidKeyword);
        }
        if branch {
            return Ok(Token::Branch(self.text(start, self.index - 1)?));
        }
        if self.index - start == 3 {
            let position = find_instr(
                upper_case_byte(self.data[start]),
                upper_case_byte(self.data[start + 1]),
                upper_case_byte(self.data[start + 2]),
            );
            if let Some(position) = position {
                return Ok(Token::Instr(position));
            }
        }
        Ok(Token::Keyword(self.text(start, self.index)?))
    }

    /// Reads the name behind a `.`: a local label or a directive.
    fn parse_directive(&mut self) -> (result: Result<Token, ParseError>)
        requires
            old(self).wf(),
            old(self).index < old(self).data@.len(),
            old(self).data@[old(self).index as int] == DOT,
        ensures
            final(self).scanned_from(old(self), scan_directive(old(self).data@, old(self).index as int), result),
    {
        self.eat_expected(DOT, ParseError::InvalidDirective)?;
        let start = self.index;
        let valid = self.parse_name();
        let mut branch = false;

        if let Ok(byte) = self.peek() {
            if byte == COLON {
                branch = true;
                self.eat()?;
            } else if !(byte == SPACE || byte == TAB || byte == LINE_FEED || byte == CARRIAGE_RETURN) {
                return Err(ParseError::InvalidDirective);
            }
        }
        if !valid {
            return Err(ParseError::InvalidDirective);
        }
        if branch {
            return Ok(Token::BranchNext(self.text(start, self.index - 1)?));
        }
        Ok(Token::Directive(self.text(start, self.index)?))
    }

    /// Reads a string with its quotes.
    fn parse_string(&mut self) -> (result: Result<Token, ParseError>)
        requires
            old(self).wf(),
            old(self).index < old(self).data@.len(),
            old(self).data@[old(self).index as int] == QUOTE,
        ensures
            final(self).scanned_from(old(self), scan_string(old(self).data@, old(self).index as int), result),
    {
        self.eat_expected(QUOTE, ParseError::InvalidString)?;
        let start = self.index;

        loop
            invariant
                self.wf(),
                self.same_place(old(self)),
                start == old(self).index + 1,
                start <= self.index,
                self.end == old(self).end + (self.index - old(self).index),
                string_close(self.data@, start as int) == string_close(self.data@, self.index as int),
            ensures
                string_close(self.data@, start as int) == Ok::<int, (int, ParseFault)>(self.index as int),
                self.index < self.size,
                self.data@[self.index as int] == QUOTE,
            decreases self.size - self.index,
        {
            match self.peek() {
                Ok(byte) => {
                    if byte == QUOTE {
                        break ;
                    }
                    if byte == BACKSLASH {
                        if self.peek2()? == QUOTE {
                            self.eat()?;
                        }
                    }
                    self.eat()?;
                },
                Err(_) => {
                    return Err(ParseError::InvalidString);
                },
            }
        }
        self.eat_expected(QUOTE, ParseError::InvalidString)?;
        Ok(Token::String(self.text(start, self.index - 1)?))
    }

    /// Reads a comment up to the end of its line.
    fn parse_comment(&mut self) -> (result: Result<Token, ParseError>)
        requires
            old(self).wf(),
            old(self).column == old(self).end,
        ensures
            final(self).scanned_from(old(self), scan_comment(old(self).data@, old(self).index as int), result),
    {
        let start = self.index;

        loop
            invariant
                self.wf(),
                self.same_place(old(self)),
                start == old(self).index,
                start <= self.index,
                self.end == old(self).end + (self.index - start),
                old(self).column == old(self).end,
                run_end(self.data@, start as int, ByteClass::Inline) == run_end(
                    self.data@,
                    self.index as int,
                    ByteClass::Inline,
                ),
            ensures
                self.index == run_end(self.data@, start as int, ByteClass::Inline),
            decreases self.size - self.index,
        {
            match self.eat() {
                Ok(byte) => {
                    if byte == LINE_FEED || byte == CARRIAGE_RETURN {
                        self.dec()?;
                        break ;
                    }
                },
                Err(_) => {
                    break ;
                },
            }
        }
        Ok(Token::Comment(self.text(start, self.index)?))
    }

    /// Reads a `(`.
    fn parse_open_parenthesis(&mut self) -> (result: Result<Token, ParseError>)
        requires
            old(self).wf(),
        ensures
            final(self).scanned_from(
                old(self),
                scan_symbol(
                    old(self).data@,
                    old(self).index as int,
                    OPEN,
                    TokenView::OpenParenthesis,
                    ParseFault::InvalidNumberFormat,
                ),
                result,
            ),
    {
        self.eat_expected(OPEN, ParseError::InvalidNumberFormat)?;
        Ok(Token::OpenParenthesis)
    }

    /// Reads a `)`.
    fn parse_close_parenthesis(&mut self) -> (result: Result<Token, ParseError>)
        requires
            old(self).wf(),
        ensures
            final(self).scanned_from(
                old(self),
                scan_symbol(
                    old(self).data@,
                    old(self).index as int,
                    CLOSE,
                    TokenView::CloseParenthesis,
                    ParseFault::InvalidNumberFormat,
                ),
                result,
            ),
    {
        self.eat_expected(CLOSE, ParseError::InvalidNumberFormat)?;
        Ok(Token::CloseParenthesis)
    }

    /// Reads a `#`.
    fn parse_sharp(&mut self) -> (result: Result<Token, ParseError>)
        requires
            old(self).wf(),
        ensures
            final(self).scanned_from(
                old(self),
                scan_symbol(old(self).data@, old(self).index as int, SHARP, TokenView::Sharp, ParseFault::InvalidNumberFormat),
                result,
            ),
    {
        self.eat_expected(SHARP, ParseError::InvalidNumberFormat)?;
        Ok(Token::Sharp)
    }

    /// Reads a `=`.
    fn parse_assign(&mut self) -> (result: Result<Token, ParseError>)
        requires
            old(self).wf(),
        ensures
            final(self).scanned_from(
                old(self),
                scan_symbol(old(self).data@, old(self).index as int, EQUALS, TokenView::Assign, ParseFault::UnexpectedSymbol),
                result,
            ),
    {
        self.eat_expected(EQUALS, ParseError::UnexpectedSymbol)?;
        Ok(Token::Assign)
    }

    /// Reads a `,`.
    fn parse_comma(&mut self) -> (result: Result<Token, ParseError>)
        requires
            old(self).wf(),
        ensures
            final(self).scanned_from(
                old(self),
                scan_symbol(old(self).data@, old(self).index as int, COMMA, TokenView::Comma, ParseFault::UnexpectedSymbol),
                result,
            ),
    {
        self.eat_expected(COMMA, ParseError::UnexpectedSymbol)?;
        Ok(Token::Comma)
    }

    /// Reads a run of line breaks.
    fn parse_newline(&mut self) -> (result: Result<Token, ParseError>)
        requires
            old(self).wf(),
        ensures
            final(self).scanned_from(old(self), scan_newline(old(self).data@, old(self).index as int), result),
    {
        let mut total_lines: usize = 0;
        let ghost start = self.index as int;
        loop
            invariant
                self.wf(),
                self.same_place(old(self)),
                start == old(self).index,
                start <= self.index,
                self.end == old(self).end + (self.index - start),
                run_end(self.data@, start, ByteClass::LineBreak) == run_end(
                    self.data@,
                    self.index as int,
                    ByteClass::LineBreak,
                ),
                total_lines == line_feeds(self.data@, start, self.index as int),
            ensures
                self.index == run_end(self.data@, start, ByteClass::LineBreak),
            decreases self.size - self.index,
        {
            proof {
                lemma_line_feeds_bounds(self.data@, start, self.index as int);
            }
            match self.peek() {
                Ok(byte) => {
                    if byte == LINE_FEED {
                        total_lines += 1;
                    } else if byte != CARRIAGE_RETURN {
                        break ;
                    }
                },
                Err(_) => {
                    break ;
                },
            }
            let _ = self.eat();
        }
        Ok(Token::NewLine(total_lines))
    }

    /// Reads a run of blanks.
    fn parse_whitespace(&mut self) -> (result: Result<Token, ParseError>)
        requires
            old(self).wf(),
        ensures
            final(self).scanned_from(old(self), scan_whitespace(old(self).data@, old(self).index as int), result),
    {
        let mut total_whitespaces: usize = 0;
        let ghost start = self.index as int;
        loop
            invariant
                self.wf(),
                self.same_place(old(self)),
                start == old(self).index,
                start <= self.index,
                self.end == old(self).end + (self.index - start),
                run_end(self.data@, start, ByteClass::Blank) == run_end(self.data@, self.index as int, ByteClass::Blank),
                total_whitespaces == self.index - start,
            ensures
                self.index == run_end(self.data@, start, ByteClass::Blank),
            decreases self.size - self.index,
        {
            match self.peek() {
                Ok(byte) => {
                    if byte != SPACE && byte != TAB {
                        break ;
                    }
                },
                Err(_) => {
                    break ;
                },
            }
            total_whitespaces += 1;
            let _ = self.eat();
        }
        Ok(Token::Space(total_whitespaces))
    }
}

/// Whether the lexer left everything of a context but its tokens as it was.
pub open spec fn kept_but_tokens(before: Context, after: Context) -> bool {
    &&& after.target == before.target
    &&& after.asts == before.asts
    &&& after.references == before.references
    &&& after.files == before.files
    &&& after.work_directory == before.work_directory
    &&& after.silent == before.silent
    &&& after.code_files == before.code_files
}

impl Clone for Token {
    fn clone(&self) -> (result: Self)
        ensures
            result@ == self@,
    {
        match self {
            Token::Instr(position) => Token::Instr(*position),
            Token::Keyword(text) => Token::Keyword(text.clone()),
            Token::String(text) => Token::String(text.clone()),
            Token::Directive(text) => Token::Directive(text.clone()),
            Token::Comment(text) => Token::Comment(text.clone()),
            Token::Assign => Token::Assign,
            Token::Comma => Token::Comma,
            Token::OpenParenthesis => Token::OpenParenthesis,
            Token::CloseParenthesis => Token::CloseParenthesis,
            Token::Sharp => Token::Sharp,
            Token::Branch(text) => Token::Branch(text.clone()),
            Token::BranchNext(text) => Token::BranchNext(text.clone()),
            Token::Byte(number) => Token::Byte(*number),
            Token::Word(number) => Token::Word(*number),
            Token::NewLine(lines) => Token::NewLine(*lines),
            Token::Space(width) => Token::Space(*width),
            Token::End => Token::End,
        }
    }
}

impl Clone for TokenInfo {
    fn clone(&self) -> (result: Self)
        ensures
            result@ == self@,
    {
        TokenInfo {
            line: self.line,
            column: self.column,
            token: self.token.clone(),
            end: self.end,
            file_id: self.file_id,
        }
    }
}

impl Token {
    /// The kind of the token.
    pub fn token_type(&self) -> (kind: TokenType)
        ensures
            kind == self@.kind(),
    {
        match self {
            Token::Instr(_) => TokenType::Instr,
            Token::Keyword(_) => TokenType::Keyword,
            Token::String(_) => TokenType::String,
            Token::Directive(_) => TokenType::Directive,
            Token::Comment(_) => TokenType::Comment,
            Token::Assign => TokenType::Assign,
            Token::Comma => TokenType::Comma,
            Token::OpenParenthesis => TokenType::OpenParenthesis,
            Token::CloseParenthesis => TokenType::CloseParenthesis,
            Token::Sharp => TokenType::Sharp,
            Token::Branch(_) => TokenType::Branch,
            Token::BranchNext(_) => TokenType::BranchNext,
            Token::Byte(_) => TokenType::Byte,
            Token::Word(_) => TokenType::Word,
            Token::NewLine(_) => TokenType::NewLine,
            Token::Space(_) => TokenType::Space,
            Token::End => TokenType::End,
        }
    }
}

} // verus!
