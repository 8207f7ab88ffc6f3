use std::path::PathBuf;
use timu6502asm::context::Context;
use timu6502asm::parser::{ParseError, Parser, Token, TokenInfo};

fn lex(data: &[u8]) -> Result<Vec<TokenInfo>, ParseError> {
    let mut context = Context::new(PathBuf::from("."));
    context.add_file(0, PathBuf::from("main.asm"));
    let mut parser = Parser::new(0, data, context);
    parser.parse()?;
    Ok(parser.context.tokens)
}

fn tokens_of(data: &[u8]) -> Vec<Token> {
    lex(data).unwrap().into_iter().map(|info| info.token).collect()
}

fn check_number(data: &[u8], expected: u16) {
    let tokens = tokens_of(data);
    assert_eq!(tokens.len(), 2);
    match tokens[0] {
        Token::Byte(current) => assert_eq!(current, expected as u8),
        Token::Word(current) => assert_eq!(current, expected),
        _ => panic!("Unexpected token"),
    }
    assert_eq!(tokens[1], Token::End);
}

#[test]
fn number_check() {
    check_number(b"$a0", 0xa0);
    check_number(b"$a000", 0xa000);
    check_number(b"%10100000", 0xa0);
    check_number(b"%1010000000000000", 40960);
    check_number(b"160", 0xa0);
}

fn check_one_comment(data: &[u8]) {
    let tokens = tokens_of(data);
    assert_eq!(tokens.len(), 2);
    if let Token::Comment(_) = tokens[0] {
        return;
    }
    panic!("Comment not parsed")
}

#[test]
fn check_comment() {
    check_one_comment(b";");
    check_one_comment(b";hello world");
    check_one_comment(b";\"test");
    check_one_comment(b";''''''");
    check_one_comment(b";;;;;;;;;;;;;");
}

#[test]
fn parser_fail() {
    assert!(lex(b"init :").is_err());
    assert!(lex(b"1-1 :").is_err());
    assert!(lex(b"- :").is_err());
    assert!(lex(b"= :").is_err());
    assert!(lex(b"? :").is_err());
}

#[test]
fn hex_width_follows_digit_count() {
    assert_eq!(tokens_of(b"$0f"), vec![Token::Byte(0x0f), Token::End]);
    assert_eq!(tokens_of(b"$FF"), vec![Token::Byte(0xff), Token::End]);
    assert_eq!(tokens_of(b"$00ff"), vec![Token::Word(0x00ff), Token::End]);
    assert_eq!(tokens_of(b"$AbCd"), vec![Token::Word(0xabcd), Token::End]);
    assert_eq!(lex(b"$").unwrap_err(), ParseError::InvalidNumberFormat);
    assert_eq!(lex(b"$1").unwrap_err(), ParseError::InvalidNumberFormat);
    assert_eq!(lex(b"$123").unwrap_err(), ParseError::InvalidNumberFormat);
    assert_eq!(lex(b"$12345").unwrap_err(), ParseError::InvalidNumberFormat);
    assert_eq!(lex(b"$123456").unwrap_err(), ParseError::InvalidNumberFormat);
}

#[test]
fn binary_width_follows_digit_count() {
    assert_eq!(tokens_of(b"%00000001"), vec![Token::Byte(1), Token::End]);
    assert_eq!(tokens_of(b"%11111111"), vec![Token::Byte(255), Token::End]);
    assert_eq!(tokens_of(b"%0000000100000010"), vec![Token::Word(0x0102), Token::End]);
    assert_eq!(lex(b"%").unwrap_err(), ParseError::InvalidNumberFormat);
    assert_eq!(lex(b"%1").unwrap_err(), ParseError::InvalidNumberFormat);
    assert_eq!(lex(b"%1111111").unwrap_err(), ParseError::InvalidNumberFormat);
    assert_eq!(lex(b"%111111111").unwrap_err(), ParseError::InvalidNumberFormat);
    assert_eq!(lex(b"%11111111111111111").unwrap_err(), ParseError::InvalidNumberFormat);
}

#[test]
fn decimal_width_follows_value() {
    assert_eq!(tokens_of(b"0"), vec![Token::Byte(0), Token::End]);
    assert_eq!(tokens_of(b"255"), vec![Token::Byte(255), Token::End]);
    assert_eq!(tokens_of(b"0255"), vec![Token::Byte(255), Token::End]);
    assert_eq!(tokens_of(b"256"), vec![Token::Word(256), Token::End]);
    assert_eq!(tokens_of(b"65535"), vec![Token::Word(65535), Token::End]);
    assert_eq!(lex(b"65536").unwrap_err(), ParseError::InvalidNumberFormat);
    assert_eq!(lex(b"99999999999999999999999").unwrap_err(), ParseError::InvalidNumberFormat);
    assert_eq!(lex(b"12a").unwrap_err(), ParseError::InvalidNumberFormat);
}

#[test]
fn many_hex_digits_are_refused() {
    let mut data = vec![b'$'];
    for _ in 0..258 {
        data.push(b'0');
    }
    assert_eq!(lex(&data).unwrap_err(), ParseError::InvalidNumberFormat);
    let mut data = vec![b'%'];
    for _ in 0..264 {
        data.push(b'1');
    }
    assert_eq!(lex(&data).unwrap_err(), ParseError::InvalidNumberFormat);
}

#[test]
fn numbers_end_at_their_terminators() {
    assert_eq!(tokens_of(b"$10,"), vec![Token::Byte(0x10), Token::Comma, Token::End]);
    assert_eq!(tokens_of(b"$10)"), vec![Token::Byte(0x10), Token::CloseParenthesis, Token::End]);
    assert_eq!(tokens_of(b"$10 "), vec![Token::Byte(0x10), Token::Space(1), Token::End]);
    assert_eq!(tokens_of(b"$10\t"), vec![Token::Byte(0x10), Token::Space(1), Token::End]);
    assert_eq!(tokens_of(b"$10\r\n"), vec![Token::Byte(0x10), Token::NewLine(1), Token::End]);
    assert_eq!(lex(b"$10=").unwrap_err(), ParseError::InvalidNumberFormat);
    assert_eq!(lex(b"10;").unwrap_err(), ParseError::InvalidNumberFormat);
}

#[test]
fn mnemonics_are_found_in_any_case() {
    assert_eq!(tokens_of(b"ADC"), vec![Token::Instr(0), Token::End]);
    assert_eq!(tokens_of(b"adc"), vec![Token::Instr(0), Token::End]);
    assert_eq!(tokens_of(b"bNe"), vec![Token::Instr(8), Token::End]);
    assert_eq!(tokens_of(b"JMP"), vec![Token::Instr(27), Token::End]);
    assert_eq!(tokens_of(b"TYA"), vec![Token::Instr(55), Token::End]);
    assert_eq!(tokens_of(b"TYB"), vec![Token::Keyword("TYB".to_string()), Token::End]);
    assert_eq!(tokens_of(b"LDAX"), vec![Token::Keyword("LDAX".to_string()), Token::End]);
}

#[test]
fn names_become_keywords_and_labels() {
    assert_eq!(tokens_of(b"loop_1"), vec![Token::Keyword("loop_1".to_string()), Token::End]);
    assert_eq!(tokens_of(b"loop:"), vec![Token::Branch("loop".to_string()), Token::End]);
    assert_eq!(tokens_of(b"BNE:"), vec![Token::Branch("BNE".to_string()), Token::End]);
    assert_eq!(
        tokens_of(b"x=1"),
        vec![Token::Keyword("x".to_string()), Token::Assign, Token::Byte(1), Token::End]
    );
    assert_eq!(lex(b"ab?").unwrap_err(), ParseError::InvalidKeyword);
    assert_eq!(lex(b"ab.").unwrap_err(), ParseError::InvalidKeyword);
}

#[test]
fn directives_and_local_labels() {
    assert_eq!(tokens_of(b".byte"), vec![Token::Directive("byte".to_string()), Token::End]);
    assert_eq!(
        tokens_of(b".ORG $0600"),
        vec![Token::Directive("ORG".to_string()), Token::Space(1), Token::Word(0x0600), Token::End]
    );
    assert_eq!(tokens_of(b".loop:"), vec![Token::BranchNext("loop".to_string()), Token::End]);
    assert_eq!(
        tokens_of(b".loop:\nDEX"),
        vec![Token::BranchNext("loop".to_string()), Token::NewLine(1), Token::Instr(21), Token::End]
    );
    assert_eq!(lex(b".").unwrap_err(), ParseError::InvalidDirective);
    assert_eq!(lex(b".12").unwrap_err(), ParseError::InvalidDirective);
    assert_eq!(lex(b".12:").unwrap_err(), ParseError::InvalidDirective);
    assert_eq!(lex(b".ab,").unwrap_err(), ParseError::InvalidDirective);
    assert_eq!(lex(b".ab)").unwrap_err(), ParseError::InvalidDirective);
}

#[test]
fn strings_keep_their_text() {
    assert_eq!(tokens_of(b"\"abcd\""), vec![Token::String("abcd".to_string()), Token::End]);
    assert_eq!(tokens_of(b"\"\""), vec![Token::String(String::new()), Token::End]);
    assert_eq!(tokens_of(b"\"a\\\"b\""), vec![Token::String("a\\\"b".to_string()), Token::End]);
    assert_eq!(tokens_of(b"\"a\\nb\""), vec![Token::String("a\\nb".to_string()), Token::End]);
    assert_eq!(tokens_of("\"h\u{e9}\"".as_bytes()), vec![Token::String("h\u{e9}".to_string()), Token::End]);
    assert_eq!(lex(b"\"abc").unwrap_err(), ParseError::InvalidString);
    assert_eq!(lex(b"\"").unwrap_err(), ParseError::InvalidString);
    assert_eq!(lex(b"\"abc\\").unwrap_err(), ParseError::OutOfScope);
    match lex(b"\"ab\xff\"").unwrap_err() {
        ParseError::Utf8Error(error) => assert_eq!(error.valid_up_to(), 2),
        other => panic!("unexpected: {:?}", other),
    }
}

#[test]
fn comments_keep_their_text() {
    assert_eq!(tokens_of(b";"), vec![Token::Comment(";".to_string()), Token::End]);
    assert_eq!(tokens_of(b"; hi"), vec![Token::Comment("; hi".to_string()), Token::End]);
    assert_eq!(
        tokens_of(b"; hi\nNOP"),
        vec![Token::Comment("; hi".to_string()), Token::NewLine(1), Token::Instr(33), Token::End]
    );
    assert_eq!(
        tokens_of("; caf\u{e9}".as_bytes()),
        vec![Token::Comment("; caf\u{e9}".to_string()), Token::End]
    );
    match lex(b";\xff").unwrap_err() {
        ParseError::Utf8Error(error) => assert_eq!(error.valid_up_to(), 1),
        other => panic!("unexpected: {:?}", other),
    }
}

#[test]
fn punctuation_and_blanks() {
    assert_eq!(
        tokens_of(b"=,()#"),
        vec![
            Token::Assign,
            Token::Comma,
            Token::OpenParenthesis,
            Token::CloseParenthesis,
            Token::Sharp,
            Token::End
        ]
    );
    assert_eq!(tokens_of(b" \t  "), vec![Token::Space(4), Token::End]);
    assert_eq!(tokens_of(b"\n\r\n\n"), vec![Token::NewLine(3), Token::End]);
    assert_eq!(tokens_of(b"\r"), vec![Token::NewLine(0), Token::End]);
    assert_eq!(tokens_of(b""), vec![Token::End]);
    assert_eq!(lex(b"?").unwrap_err(), ParseError::UnknownToken);
    assert_eq!(lex(b"@loop").unwrap_err(), ParseError::UnknownToken);
    assert_eq!(lex(b":").unwrap_err(), ParseError::UnknownToken);
}

#[test]
fn tokens_are_located() {
    let tokens = lex(b"LDX #$08\n  DEX ;x\r\n\nBRK").unwrap();
    let places: Vec<(usize, usize, usize)> = tokens.iter().map(|info| (info.line, info.column, info.end)).collect();
    assert_eq!(
        places,
        vec![
            (0, 0, 3),
            (0, 3, 4),
            (0, 4, 5),
            (0, 5, 8),
            (0, 8, 9),
            (1, 0, 2),
            (1, 2, 5),
            (1, 5, 6),
            (1, 6, 8),
            (1, 8, 11),
            (3, 0, 3),
            (3, 3, 3),
        ]
    );
    assert!(tokens.iter().all(|info| info.file_id == 0));
    assert_eq!(tokens[9].token, Token::NewLine(2));
}

#[test]
fn a_fault_leaves_the_lexer_at_its_place() {
    let context = Context::new(PathBuf::from("."));
    let mut parser = Parser::new(3, b"LDA #$1\nNOP", context);
    assert_eq!(parser.parse().unwrap_err(), ParseError::InvalidNumberFormat);
    assert_eq!((parser.line, parser.column, parser.end, parser.index), (0, 5, 7, 7));
    assert_eq!(parser.context.tokens.len(), 3);
    assert_eq!(parser.context.tokens[2].token, Token::Sharp);
    assert_eq!(parser.context.tokens[2].file_id, 3);

    let context = Context::new(PathBuf::from("."));
    let mut parser = Parser::new(0, b"NOP\n  ?", context);
    assert_eq!(parser.parse().unwrap_err(), ParseError::UnknownToken);
    assert_eq!((parser.line, parser.column, parser.end, parser.index), (1, 2, 2, 6));
}

#[test]
fn lexing_goes_on_behind_earlier_tokens() {
    let context = Context::new(PathBuf::from("."));
    let mut first = Parser::new(0, b"NOP", context);
    first.parse().unwrap();
    let mut second = Parser::new(1, b"BRK", first.context);
    second.parse().unwrap();
    let tokens: Vec<Token> = second.context.tokens.iter().map(|info| info.token.clone()).collect();
    assert_eq!(tokens, vec![Token::Instr(33), Token::End, Token::Instr(10), Token::End]);
    assert_eq!(second.context.tokens[2].file_id, 1);
}

fn reader(data: &[u8]) -> Parser<'_> {
    Parser::new(0, data, Context::new(PathBuf::from(".")))
}

#[test]
fn hexadecimal_numbers_are_read_alone() {
    let mut parser = reader(b"$a0,");
    assert_eq!(parser.parse_hex(), Ok(Token::Byte(0xa0)));
    assert_eq!((parser.index, parser.end), (3, 3));
    let mut parser = reader(b"$3F");
    assert_eq!(parser.parse_hex(), Ok(Token::Byte(16 * 3 + 15)));
    assert_eq!(parser.index, 3);
    let mut parser = reader(b"$0008)");
    assert_eq!(parser.parse_hex(), Ok(Token::Word(8)));
    assert_eq!(parser.index, 5);
    let mut parser = reader(b"xx$Ff01\n");
    parser.index = 2;
    parser.column = 2;
    parser.end = 2;
    assert_eq!(parser.parse_hex(), Ok(Token::Word(0xff01)));
    assert_eq!((parser.index, parser.column, parser.end), (7, 2, 7));
    for (source, index) in [(&b"$"[..], 1), (b"$1 ", 2), (b"$123", 4), (b"$12345,", 6), (b"$1g", 2)] {
        let mut parser = reader(source);
        assert_eq!(parser.parse_hex(), Err(ParseError::InvalidNumberFormat));
        assert_eq!(parser.index, index);
    }
    let mut parser = reader(b"%10");
    assert_eq!(parser.parse_hex(), Err(ParseError::InvalidNumberFormat));
    assert_eq!(parser.index, 1);
    let mut parser = reader(b"");
    assert_eq!(parser.parse_hex(), Err(ParseError::OutOfScope));
    assert_eq!(parser.index, 0);
}

#[test]
fn binary_numbers_are_read_alone() {
    let mut parser = reader(b"%10100000 ");
    assert_eq!(parser.parse_binary(), Ok(Token::Byte(0xa0)));
    assert_eq!(parser.index, 9);
    let mut parser = reader(b"%1000000000000001");
    assert_eq!(parser.parse_binary(), Ok(Token::Word(0x8001)));
    assert_eq!(parser.index, 17);
    for (source, index) in [(&b"%"[..], 1), (b"%1010", 5), (b"%101000001,", 10), (b"%10100002", 8)] {
        let mut parser = reader(source);
        assert_eq!(parser.parse_binary(), Err(ParseError::InvalidNumberFormat));
        assert_eq!(parser.index, index);
    }
    let mut parser = reader(b"$10");
    assert_eq!(parser.parse_binary(), Err(ParseError::InvalidNumberFormat));
    let mut parser = reader(b"");
    assert_eq!(parser.parse_binary(), Err(ParseError::OutOfScope));
}

#[test]
fn decimal_numbers_are_read_alone() {
    let mut parser = reader(b"255,");
    assert_eq!(parser.parse_absolute_decimal(), Ok(Token::Byte(255)));
    assert_eq!(parser.index, 3);
    let mut parser = reader(b"256\t");
    assert_eq!(parser.parse_absolute_decimal(), Ok(Token::Word(256)));
    assert_eq!(parser.index, 3);
    let mut parser = reader(b"00007");
    assert_eq!(parser.parse_absolute_decimal(), Ok(Token::Byte(7)));
    assert_eq!(parser.index, 5);
    let mut parser = reader(b"65536");
    assert_eq!(parser.parse_absolute_decimal(), Err(ParseError::InvalidNumberFormat));
    assert_eq!(parser.index, 5);
    let mut parser = reader(b"12x");
    assert_eq!(parser.parse_absolute_decimal(), Err(ParseError::InvalidNumberFormat));
    assert_eq!(parser.index, 2);
}
