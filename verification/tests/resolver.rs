use std::path::PathBuf;
use timu6502asm::ast::{
    Ast, AstGenerator, AstGeneratorError, AstStatus, BranchType, InstrInfo, InstrInfoRegister, InstrValue,
};
use timu6502asm::context::Context;
use timu6502asm::directive::{DirectiveEnum, DirectiveValue};
use timu6502asm::parser::{ParseError, Parser, Token, TokenInfo};

fn lexed(data: &[u8]) -> Context {
    let mut context = Context::new(PathBuf::from("."));
    context.add_file(0, PathBuf::from("main.asm"));
    context.code_files[0].data = data.to_vec();
    let mut parser = Parser::new(0, data, context);
    parser.parse().unwrap();
    parser.context
}

fn resolve(data: &[u8]) -> Result<Context, AstGeneratorError> {
    let mut context = lexed(data);
    let mut ast_generator = AstGenerator::new();
    match ast_generator.generate(&mut context)? {
        AstStatus::Finished => Ok(context),
        AstStatus::Include { path, .. } => panic!("unexpected file {:?}", path),
    }
}

fn message_of(data: &[u8]) -> String {
    match resolve(data) {
        Err(AstGeneratorError::SyntaxIssue { message, .. }) => message,
        Err(error) => panic!("another error: {:?}", error),
        Ok(_) => panic!("no error"),
    }
}

fn operand(data: &[u8]) -> InstrInfo {
    let context = lexed(data);
    let mut ast_generator = AstGenerator::new();
    ast_generator.size = context.tokens.len();
    ast_generator.parse_instr_value(&context).unwrap()
}

fn info(value: InstrValue, is_immediate: bool, in_parenthesis: bool, register: InstrInfoRegister) -> InstrInfo {
    InstrInfo { value, is_immediate, in_parenthesis, register }
}

#[test]
fn number_parsing_test() {
    let none = InstrInfoRegister::NoRegister;
    assert_eq!(operand(b"#$08"), info(InstrValue::Byte(0x08), true, false, none));
    assert_eq!(operand(b"#$0008"), info(InstrValue::Byte(0x08), true, false, none));
    assert_eq!(operand(b"$08"), info(InstrValue::Byte(0x08), false, false, none));
    assert_eq!(operand(b"$0800"), info(InstrValue::Word(0x0800), false, false, none));
    assert_eq!(operand(b"($0800)"), info(InstrValue::Word(0x0800), false, true, none));
    assert_eq!(operand(b"($0008, X)"), info(InstrValue::Byte(0x08), false, true, InstrInfoRegister::X));
    assert_eq!(operand(b"($0008) , Y"), info(InstrValue::Byte(0x08), false, true, InstrInfoRegister::Y));
    assert_eq!(operand(b"( $08, X ) "), info(InstrValue::Byte(0x08), false, true, InstrInfoRegister::X));
    assert_eq!(operand(b"( $08 ) , Y "), info(InstrValue::Byte(0x08), false, true, InstrInfoRegister::Y));
    assert_eq!(
        operand(b"( test ) , Y "),
        info(InstrValue::Reference("test".to_string()), false, true, InstrInfoRegister::Y)
    );
    assert_eq!(
        operand(b"(test),Y"),
        info(InstrValue::Reference("test".to_string()), false, true, InstrInfoRegister::Y)
    );
    assert_eq!(operand(b"#test"), info(InstrValue::Reference("test".to_string()), true, false, none));
    assert_eq!(operand(b"(test)"), info(InstrValue::Reference("test".to_string()), false, true, none));
    assert_eq!(operand(b"test"), info(InstrValue::Reference("test".to_string()), false, false, none));
}

#[test]
fn operands_take_registers_and_local_labels() {
    let none = InstrInfoRegister::NoRegister;
    assert_eq!(operand(b"$10,x"), info(InstrValue::Byte(0x10), false, false, InstrInfoRegister::X));
    assert_eq!(operand(b"$10,Y"), info(InstrValue::Byte(0x10), false, false, InstrInfoRegister::Y));
    assert_eq!(operand(b"$1234 , y"), info(InstrValue::Word(0x1234), false, false, InstrInfoRegister::Y));
    assert_eq!(operand(b".next"), info(InstrValue::LocalReference("next".to_string()), false, false, none));
    assert_eq!(operand(b"#$1234"), info(InstrValue::Byte(0x34), true, false, none));
    assert_eq!(operand(b"($1234),y"), info(InstrValue::Byte(0x34), false, true, InstrInfoRegister::Y));
    assert_eq!(operand(b"#$1234,x"), info(InstrValue::Word(0x1234), true, false, InstrInfoRegister::X));
    assert_eq!(operand(b"300"), info(InstrValue::Word(300), false, false, none));
}

#[test]
fn operand_leaves_the_cursor_behind_it() {
    let context = lexed(b" ($08),Y ; c");
    let mut ast_generator = AstGenerator::new();
    ast_generator.size = context.tokens.len();
    ast_generator.parse_instr_value(&context).unwrap();
    assert_eq!(ast_generator.index, 7);
    assert_eq!(context.tokens[7].token, Token::Comment("; c".to_string()));
}

#[test]
fn ast_generator_fail() {
    assert!(resolve(b".INCBIN").is_err());
    assert!(resolve(b"BNE").is_err());
    assert!(resolve(b"BNE BNE").is_err());
    assert!(resolve(b"BNE 11111").is_err());
    assert!(resolve(b"BNE \"Hello\"").is_err());
    assert!(resolve(b"BNE  = \"Hello\"").is_err());
    assert!(resolve(b".fBNE  = \"Hello\"").is_err());
    assert!(resolve(b"AND ($0008) , x").is_err());
    assert!(resolve(b"AND ($0008 , Y)").is_err());
    assert!(resolve(b"\nVAR = 1\nVAR = 1\n").is_err());
}

fn check_invalid(data: &[u8]) {
    let mut context = Context::new(PathBuf::from("."));
    context.add_file(0, PathBuf::from("main.asm"));
    context.code_files[0].data = data.to_vec();
    let mut parser = Parser::new(0, data, context);
    if let Ok(_) = parser.parse() {
        let mut context = parser.context;
        let mut ast_generator = AstGenerator::new();
        ast_generator.generate(&mut context).unwrap_err();
    }
}

#[test]
fn invalid_number_check() {
    check_invalid(b"#$a00");
    check_invalid(b"#%123");
    check_invalid(b"#%001");
    check_invalid(b"#%00111");
    check_invalid(b"#% 00111");
    check_invalid(b"#%a00111");
    check_invalid(b"#$");
    check_invalid(b"#$1");
    check_invalid(b"$a01");
    check_invalid(b"$a0111");
    check_invalid(b"$a");
    check_invalid(b"$ta000");
    check_invalid(b"$a000-,X");
    check_invalid(b"($a0,X");
    check_invalid(b"$a0),Y");
    check_invalid(b"$a0 , Y)");
    check_invalid(b"$a0  Y)");
    check_invalid(b"($a0)");
    check_invalid(b"($a000");
    check_invalid(b"$a000)");
}

#[test]
fn syntax_faults_say_what_is_wrong() {
    assert_eq!(message_of(b"BNE"), "Expected space");
    assert_eq!(message_of(b"BNE BNE"), "Invalid numbering number format");
    assert_eq!(message_of(b"BNE 11111"), "Relative number or branch name expected");
    assert_eq!(message_of(b"AND ($0008) , x"), "Expected Y");
    assert_eq!(message_of(b"AND ($0008 , Y)"), "Expected X");
    assert_eq!(message_of(b"AND $08, z"), "Expected X or Y");
    assert_eq!(message_of(b"AND ($08"), "Expected ')'");
    assert_eq!(message_of(b".fBNE 1"), "Unsupported compiler configuration");
    assert_eq!(message_of(b".INCBIN"), "Expected 1 value(s)");
    assert_eq!(message_of(b".ORG $0600, $0700"), "Expected 1 value(s)");
    assert_eq!(message_of(b".byte"), "Minimum 1 value(s) expected");
    assert_eq!(message_of(b".byte $1234"), "Unexpected value type");
    assert_eq!(message_of(b".word \"a\""), "Unexpected value type");
    assert_eq!(message_of(b".byte ,1"), "',' not expected");
    assert_eq!(message_of(b".byte 1 2"), "Unexpected syntax");
    assert_eq!(message_of(b".byte ("), "Unexpected syntax");
    assert_eq!(message_of(b"x 1"), "Expected assign");
    assert_eq!(message_of(b"$10"), "Number not expected");
    assert_eq!(message_of(b"300"), "Number not expected");
    assert_eq!(message_of(b"("), "'(' not expected");
    assert_eq!(message_of(b")"), "')' not expected");
    assert_eq!(message_of(b"#"), "'#' not expected");
    assert_eq!(message_of(b"="), "'=' not expected");
    assert_eq!(message_of(b","), "',' not expected");
    assert_eq!(message_of(b"\"a\""), "String not expected");
    assert_eq!(message_of(b"x = 1, 2\nLDA x"), "Only one token required");
    assert_eq!(message_of(b"x = \"a\"\nLDA x"), "Invalid token for number");
    assert_eq!(message_of(b".include name"), "Path expected as a string");
}

#[test]
fn storage_directives_take_one_or_two_values() {
    for source in [&b".DSB 5, $10, $20"[..], b".dsb 1, 2, 3", b".dsw 1, 2, 3", b".Dsw 1, $1122, 3, 4"] {
        let mut context = lexed(source);
        let mut ast_generator = AstGenerator::new();
        match ast_generator.generate(&mut context) {
            Err(AstGeneratorError::SyntaxIssue { line, column, end, message }) => {
                assert_eq!((line, column, end), (0, 0, 4));
                assert_eq!(message, "Expected 1 to 2 value(s)");
            }
            other => panic!("unexpected: {:?}", other),
        }
        assert!(context.asts.is_empty());
    }
    assert_eq!(message_of(b".dsb"), "Expected 1 to 2 value(s)");
    assert_eq!(message_of(b".dsw ; none"), "Expected 1 to 2 value(s)");
    assert_eq!(message_of(b"NOP\n .dsb 2, $1234"), "Fill byte expected");
    assert_eq!(message_of(b".dsb \"a\""), "Unexpected value type");
    assert_eq!(message_of(b".dsw 2, \"a\""), "Unexpected value type");
    let context = resolve(b".dsb 5\n.dsb 5, $10\n.dsw $0100, 7\n.dsw 5, $1122\n.dsb n, m").unwrap();
    assert_eq!(context.asts.len(), 5);
    match &context.asts[2].ast {
        Ast::Directive(DirectiveEnum::Dsw, values) => {
            assert_eq!(values, &vec![DirectiveValue::Word(0x0100), DirectiveValue::Byte(7)])
        }
        other => panic!("unexpected: {:?}", other),
    }
}

#[test]
fn syntax_faults_are_located() {
    match resolve(b"NOP\n  AND ($0008) , x") {
        Err(AstGeneratorError::SyntaxIssue { line, column, end, message }) => {
            assert_eq!((line, column, end), (1, 16, 17));
            assert_eq!(message, "Expected Y");
        }
        other => panic!("unexpected: {:?}", other.map(|_| ())),
    }
    match resolve(b"NOP\nBNE 11111") {
        Err(AstGeneratorError::SyntaxIssue { line, column, end, .. }) => {
            assert_eq!((line, column, end), (1, 0, 3));
        }
        other => panic!("unexpected: {:?}", other.map(|_| ())),
    }
}

#[test]
fn duplicate_assignment_fails() {
    match resolve(b"X = 1\nX = 2") {
        Err(AstGeneratorError::ReferenceAlreadyDefined(name)) => assert_eq!(name, "X"),
        other => panic!("unexpected: {:?}", other.map(|_| ())),
    }
    let context = resolve(b"X = 1\nY = 2").unwrap();
    assert_eq!(context.references.len(), 2);
    assert_eq!(context.references.get("X").unwrap(), &vec![DirectiveValue::Byte(1)]);
    assert_eq!(context.references.get("Y").unwrap(), &vec![DirectiveValue::Byte(2)]);
}

#[test]
fn constants_stand_for_their_numbers() {
    let context = resolve(b"small = $10\nlarge = $1234\ntext = \"a\", 2\nCPX #small\nLDA large\nLDA #large\nLDA small,x").unwrap();
    let none = InstrInfoRegister::NoRegister;
    assert_eq!(context.asts.len(), 4);
    match &context.asts[0].ast {
        Ast::Instr(18, operand) => assert_eq!(operand, &info(InstrValue::Byte(0x10), true, false, none)),
        other => panic!("unexpected: {:?}", other),
    }
    match &context.asts[1].ast {
        Ast::Instr(29, operand) => assert_eq!(operand, &info(InstrValue::Word(0x1234), false, false, none)),
        other => panic!("unexpected: {:?}", other),
    }
    match &context.asts[2].ast {
        Ast::Instr(29, operand) => assert_eq!(operand, &info(InstrValue::Byte(0x34), true, false, none)),
        other => panic!("unexpected: {:?}", other),
    }
    match &context.asts[3].ast {
        Ast::Instr(29, operand) => {
            assert_eq!(operand, &info(InstrValue::Byte(0x10), false, false, InstrInfoRegister::X))
        }
        other => panic!("unexpected: {:?}", other),
    }
    assert_eq!(
        context.references.get("text").unwrap(),
        &vec![DirectiveValue::String("a".to_string()), DirectiveValue::Byte(2)]
    );
}

#[test]
fn nodes_are_made_in_order_and_located() {
    let context = resolve(b"start:\n  LDA #1 ; one\n.loop:\n  BNE .loop\n  .byte 1, \"ab\", name,\n  BRK").unwrap();
    assert_eq!(context.asts.len(), 6);
    assert!(matches!(&context.asts[0].ast, Ast::Branch(name, BranchType::Generic) if name == "start"));
    assert!(matches!(&context.asts[1].ast, Ast::Instr(29, _)));
    assert!(matches!(&context.asts[2].ast, Ast::Branch(name, BranchType::Local) if name == "loop"));
    match &context.asts[3].ast {
        Ast::Instr(8, operand) => assert_eq!(
            operand,
            &info(InstrValue::LocalReference("loop".to_string()), false, false, InstrInfoRegister::NoRegister)
        ),
        other => panic!("unexpected: {:?}", other),
    }
    match &context.asts[4].ast {
        Ast::Directive(DirectiveEnum::Byte, values) => assert_eq!(
            values,
            &vec![
                DirectiveValue::Byte(1),
                DirectiveValue::String("ab".to_string()),
                DirectiveValue::Reference("name".to_string())
            ]
        ),
        other => panic!("unexpected: {:?}", other),
    }
    assert!(matches!(&context.asts[5].ast, Ast::InstrImplied(10)));
    assert_eq!((context.asts[1].line, context.asts[1].column, context.asts[1].end), (1, 2, 5));
    assert_eq!((context.asts[4].line, context.asts[4].column, context.asts[4].end), (4, 2, 7));
}

#[test]
fn tokens_that_run_out_are_out_of_scope() {
    let mut context = Context::new(PathBuf::from("."));
    context.tokens.push(TokenInfo { line: 0, column: 0, token: Token::Instr(29), end: 3, file_id: 0 });
    let mut ast_generator = AstGenerator::new();
    assert!(matches!(ast_generator.generate(&mut context), Err(AstGeneratorError::OutOfScope)));
    assert_eq!(ast_generator.index, 1);

    let mut context = Context::new(PathBuf::from("."));
    context.tokens.push(TokenInfo { line: 0, column: 0, token: Token::Instr(29), end: 3, file_id: 0 });
    context.tokens.push(TokenInfo { line: 0, column: 3, token: Token::Space(1), end: 4, file_id: 0 });
    context.tokens.push(TokenInfo { line: 0, column: 4, token: Token::Sharp, end: 5, file_id: 0 });
    let mut ast_generator = AstGenerator::new();
    assert!(matches!(ast_generator.generate(&mut context), Err(AstGeneratorError::OutOfScope)));
}

#[test]
fn an_instruction_outside_the_table_is_an_internal_error() {
    let mut context = Context::new(PathBuf::from("."));
    context.tokens.push(TokenInfo { line: 0, column: 0, token: Token::Instr(56), end: 3, file_id: 0 });
    context.tokens.push(TokenInfo { line: 0, column: 3, token: Token::End, end: 3, file_id: 0 });
    let mut ast_generator = AstGenerator::new();
    assert!(matches!(ast_generator.generate(&mut context), Err(AstGeneratorError::InternalError)));
}

#[test]
fn names_are_read_from_keywords_and_local_labels() {
    let context = lexed(b"name .local: 12");
    let mut ast_generator = AstGenerator::new();
    ast_generator.size = context.tokens.len();
    assert_eq!(ast_generator.eat_text(&context).unwrap(), "name");
    ast_generator.index = 2;
    assert_eq!(ast_generator.eat_text(&context).unwrap(), "local");
    ast_generator.index = 4;
    match ast_generator.eat_text(&context) {
        Err(AstGeneratorError::SyntaxIssue { message, column, .. }) => {
            assert_eq!(message, "Expected text");
            assert_eq!(column, 13);
        }
        other => panic!("unexpected: {:?}", other),
    }
    ast_generator.index = 6;
    assert!(matches!(ast_generator.eat_text(&context), Err(AstGeneratorError::OutOfScope)));
}

#[test]
fn syntax_issue_takes_the_place_of_its_token() {
    let context = lexed(b"NOP\n  BRK");
    match AstGeneratorError::syntax_issue(&context, 3, "text".to_string()) {
        AstGeneratorError::SyntaxIssue { line, column, end, message } => {
            assert_eq!((line, column, end), (1, 2, 5));
            assert_eq!(message, "text");
        }
        other => panic!("unexpected: {:?}", other),
    }
}

#[test]
fn an_included_file_is_spliced_in_at_the_cursor() {
    let mut context = Context::new(PathBuf::from("work"));
    context.add_file(0, PathBuf::from("src/main.asm"));
    let mut parser = Parser::new(0, b"LDA #1\n.include \"inc/other.asm\"\nBRK", context);
    parser.parse().unwrap();
    let mut context = parser.context;
    let before = context.tokens.len();
    let mut ast_generator = AstGenerator::new();

    let path = match ast_generator.generate(&mut context).unwrap() {
        AstStatus::Include { path, name, file_id } => {
            assert_eq!(name, "inc/other.asm");
            assert_eq!(file_id, 0);
            path
        }
        AstStatus::Finished => panic!("no file asked for"),
    };
    assert_eq!(path, PathBuf::from("work/src/inc/other.asm"));
    assert_eq!(context.files, vec![PathBuf::from("work/src/main.asm"), PathBuf::from("work/src/inc/other.asm")]);
    assert_eq!(context.asts.len(), 1);
    let cursor = ast_generator.index;

    ast_generator.process_include(&mut context, b"INX\nINY".to_vec()).unwrap();
    assert_eq!(ast_generator.index, cursor);
    assert_eq!(ast_generator.size, before + 4);
    assert_eq!(context.tokens.len(), before + 4);
    assert_eq!(context.code_files[1].data, b"INX\nINY".to_vec());
    let spliced: Vec<Token> = context.tokens[cursor..cursor + 4].iter().map(|info| info.token.clone()).collect();
    assert_eq!(spliced, vec![Token::Instr(25), Token::NewLine(1), Token::Instr(26), Token::NewLine(1)]);
    assert!(context.tokens[cursor..cursor + 4].iter().all(|info| info.file_id == 1));
    assert_eq!(context.tokens[cursor + 4].token, Token::Instr(10));
    assert_eq!(context.tokens[cursor + 4].file_id, 0);

    assert!(matches!(ast_generator.generate(&mut context).unwrap(), AstStatus::Finished));
    let nodes: Vec<usize> = context
        .asts
        .iter()
        .map(|info| match &info.ast {
            Ast::Instr(position, _) => *position,
            Ast::InstrImplied(position) => *position,
            _ => usize::MAX,
        })
        .collect();
    assert_eq!(nodes, vec![29, 25, 26, 10]);
}

#[test]
fn nested_files_are_found_beside_their_includer() {
    let mut context = Context::new(PathBuf::from("work"));
    context.add_file(0, PathBuf::from("main.asm"));
    let mut parser = Parser::new(0, b".include \"lib/first.asm\"\nBRK", context);
    parser.parse().unwrap();
    let mut context = parser.context;
    let mut ast_generator = AstGenerator::new();

    let path = match ast_generator.generate(&mut context).unwrap() {
        AstStatus::Include { path, .. } => path,
        AstStatus::Finished => panic!("no file asked for"),
    };
    assert_eq!(path, PathBuf::from("work/lib/first.asm"));
    ast_generator.process_include(&mut context, b"INX\n.include \"second.asm\"\nINY".to_vec()).unwrap();

    let path = match ast_generator.generate(&mut context).unwrap() {
        AstStatus::Include { path, .. } => path,
        AstStatus::Finished => panic!("no file asked for"),
    };
    assert_eq!(path, PathBuf::from("work/lib/second.asm"));
    match AstGenerator::new().generate(&mut lexed(b".include \"x\"")).unwrap() {
        AstStatus::Include { name, file_id, .. } => assert_eq!((name.as_str(), file_id), ("x", 0)),
        AstStatus::Finished => panic!("no file asked for"),
    }
    assert_eq!(context.last_file_id(), 2);
    ast_generator.process_include(&mut context, Vec::new()).unwrap();
    assert!(context.code_files[2].data.is_empty());

    assert!(matches!(ast_generator.generate(&mut context).unwrap(), AstStatus::Finished));
    let nodes: Vec<usize> = context
        .asts
        .iter()
        .map(|info| match &info.ast {
            Ast::InstrImplied(position) => *position,
            _ => usize::MAX,
        })
        .collect();
    assert_eq!(nodes, vec![25, 26, 10]);
    let files: Vec<usize> = context.tokens.iter().map(|info| info.file_id).collect();
    assert_eq!(files, vec![0, 0, 0, 0, 1, 1, 1, 1, 1, 1, 2, 1, 1, 0, 0]);
}

#[test]
fn an_included_file_that_does_not_lex_is_refused() {
    let mut context = lexed(b".include \"other.asm\"\nBRK");
    let mut ast_generator = AstGenerator::new();
    assert!(matches!(ast_generator.generate(&mut context).unwrap(), AstStatus::Include { .. }));
    let before = context.tokens.len();
    assert_eq!(
        ast_generator.process_include(&mut context, b"LDA #$1".to_vec()).unwrap_err(),
        ParseError::InvalidNumberFormat
    );
    assert_eq!(context.tokens.len(), before);
    assert_eq!(context.code_files[1].data, b"LDA #$1".to_vec());
}

#[test]
fn the_end_marker_stops_the_run() {
    let mut context = lexed(b"NOP");
    let mut ast_generator = AstGenerator::new();
    assert!(matches!(ast_generator.generate(&mut context).unwrap(), AstStatus::Finished));
    assert_eq!(ast_generator.index, 2);
    assert_eq!(ast_generator.size, 2);
    assert!(matches!(ast_generator.generate(&mut context).unwrap(), AstStatus::Finished));
    assert_eq!(context.asts.len(), 1);
}

#[test]
fn an_assignment_is_read_alone() {
    let mut context = lexed(b"NAME = $10, \"a\", other ; values\nNOP");
    let mut ast_generator = AstGenerator::new();
    ast_generator.size = context.tokens.len();
    ast_generator.index = 1;
    ast_generator.generate_assign(&mut context, 0, "NAME".to_string()).unwrap();
    assert_eq!(
        context.references.get("NAME").unwrap(),
        &vec![
            DirectiveValue::Byte(0x10),
            DirectiveValue::String("a".to_string()),
            DirectiveValue::Reference("other".to_string())
        ]
    );
    assert_eq!(context.references.len(), 1);
    assert!(context.asts.is_empty());
    assert_eq!(context.tokens[ast_generator.index].token, Token::NewLine(1));

    let mut context = lexed(b"NAME = $10\nNAME=$10");
    let mut ast_generator = AstGenerator::new();
    ast_generator.size = context.tokens.len();
    ast_generator.index = 1;
    ast_generator.generate_assign(&mut context, 0, "NAME".to_string()).unwrap();
    ast_generator.index += 1;
    match ast_generator.generate_assign(&mut context, ast_generator.index - 1, "NAME".to_string()) {
        Err(AstGeneratorError::ReferenceAlreadyDefined(name)) => assert_eq!(name, "NAME"),
        other => panic!("unexpected: {:?}", other),
    }
    assert_eq!(context.references.get("NAME").unwrap(), &vec![DirectiveValue::Byte(0x10)]);
    assert_eq!(context.references.len(), 1);
    assert!(context.asts.is_empty());
}
