use std::path::PathBuf;
use timu6502asm::ast::{
    Ast, AstGenerator, AstInfo, AstStatus, BranchType, InstrInfo, InstrInfoRegister, InstrValue,
};
use timu6502asm::code_gen::{CodeGenerator, CodeGeneratorError, CodeStatus, Fixup, FixupKind};
use timu6502asm::context::Context;
use timu6502asm::directive::{DirectiveEnum, DirectiveValue};
use timu6502asm::parser::Parser;

fn resolved(data: &[u8]) -> Context {
    let mut context = Context::new(PathBuf::from("."));
    context.add_file(0, PathBuf::from("main.asm"));
    context.code_files[0].data = data.to_vec();
    let mut parser = Parser::new(0, data, context);
    parser.parse().unwrap();
    let mut context = parser.context;
    let mut ast_generator = AstGenerator::new();
    match ast_generator.generate(&mut context).unwrap() {
        AstStatus::Finished => {}
        AstStatus::Include { path, .. } => panic!("unexpected file {:?}", path),
    }
    context
}

fn assemble(data: &[u8]) -> Result<Vec<u8>, CodeGeneratorError> {
    let mut context = resolved(data);
    let mut generator = CodeGenerator::new();
    match generator.generate(&mut context)? {
        CodeStatus::Finished => Ok(context.target),
        CodeStatus::Incbin(name) => panic!("unexpected file {}", name),
    }
}

fn check(data: &[u8], codes: &[u8]) {
    assert_eq!(assemble(data).unwrap(), codes);
}

fn node(ast: Ast) -> AstInfo {
    AstInfo { line: 0, column: 0, ast, end: 0 }
}

fn generate_nodes(nodes: Vec<Ast>) -> Result<Vec<u8>, CodeGeneratorError> {
    let mut context = Context::new(PathBuf::from("."));
    for ast in nodes {
        context.asts.push(node(ast));
    }
    let mut generator = CodeGenerator::new();
    match generator.generate(&mut context)? {
        CodeStatus::Finished => Ok(context.target),
        CodeStatus::Incbin(name) => panic!("unexpected file {}", name),
    }
}

#[test]
fn compile_test() {
    assemble(b"\nVAR = \"\\\"\"    \nLDX #$08\ndecrement2:\nSTX $0201\ndecrement:\nDEX\nSTX $0200\nCPX #$03\nBNE decrement\nBNE decrement2\nSTX $0201\nBRK").unwrap();
    assemble(b"LDA #$01\nSTA $0200\nLDA #$05\nSTA $0201\nLDA #$08\nSTA $0202").unwrap();
    assemble(b"LDA #$c0  ;Load the hex value $c0 into the A register\nTAX       ;Transfer the value in the A register to X\nINX       ;Increment the value in the X register\nADC #$c4  ;Add the hex value $c4 to the A register\nBRK       ;Break - we're done").unwrap();
    assemble(b"\nLDA #$80\nSTA $01\nADC $01\n").unwrap();
    assemble(b"LDX #$08\ndecrement:\nDEX\nSTX $0200\nCPX #$03\nBNE decrement\nBNE decrement2\nSTX $0201\ndecrement2:\nSTX $0201\nBRK").unwrap();
}

#[test]
fn check_codes() {
    check(
        b"LDX #$08\ndecrement:\nDEX\nSTX $0200\nCPX #$03\nBNE decrement\nBNE decrement2\nSTX $0201\ndecrement2:\nSTX $0201\nBRK",
        &[0xa2, 0x08, 0xca, 0x8e, 0x00, 0x02, 0xe0, 0x03, 0xd0, 0xf8, 0xd0, 0x03, 0x8e, 0x01, 0x02, 0x8e, 0x01, 0x02, 0x00],
    );
    check(
        b"LDX #$08\ndecrement2:\nSTX $0201\ndecrement:\nDEX\nSTX $0200\nCPX #$03\nBNE decrement\nBNE decrement2\nSTX $0201\nBRK",
        &[0xa2, 0x08, 0x8e, 0x01, 0x02, 0xca, 0x8e, 0x00, 0x02, 0xe0, 0x03, 0xd0, 0xf8, 0xd0, 0xf3, 0x8e, 0x01, 0x02, 0x00],
    );
    check(
        b"LDX #$01   ;X is $01\nLDA #$aa   ;A is $aa\nSTA $a0,X ;Store the value of A at memory location $a1\nINX        ;Increment X\nSTA $a0,X ;Store the value of A at memory location $a2",
        &[0xa2, 0x01, 0xa9, 0xaa, 0x95, 0xa0, 0xe8, 0x95, 0xa0],
    );
    check(
        b"LDA #$01\nCMP #$02\nBNE notequal\nSTA $22\nnotequal:\nBRK",
        &[0xa9, 0x01, 0xc9, 0x02, 0xd0, 0x02, 0x85, 0x22, 0x00],
    );
    check(
        b"LDA #$01\nSTA $f0\nLDA #$cc\nSTA $f1\nJMP ($00f0) ;dereferences to $cc01",
        &[0xa9, 0x01, 0x85, 0xf0, 0xa9, 0xcc, 0x85, 0xf1, 0x6c, 0xf0, 0x00],
    );
    check(
        b"LDX #$00\n    LDY #$00\n  firstloop:\n    TXA\n    STA $0200,Y\n    PHA\n    INX\n    INY\n    CPY #$10\n    BNE firstloop ;loop until Y is $10\n  secondloop:\n    PLA\n    STA $0200,Y\n    INY\n    CPY #$20      ;loop until Y is $20\n    BNE secondloop",
        &[0xa2, 0x00, 0xa0, 0x00, 0x8a, 0x99, 0x00, 0x02, 0x48, 0xe8, 0xc8, 0xc0, 0x10, 0xd0, 0xf5, 0x68, 0x99, 0x00, 0x02, 0xc8, 0xc0, 0x20, 0xd0, 0xf7],
    );
    check(
        b"  LDA #$03\nJMP there\nBRK\nBRK\nBRK\nthere:\nSTA $0200",
        &[0xa9, 0x03, 0x4c, 0x08, 0x00, 0x00, 0x00, 0x00, 0x8d, 0x00, 0x02],
    );
    check(
        b"  JSR init\nJSR loop\nJSR end\n\ninit:\nLDX #$00\nRTS\n\nloop:\nINX\nCPX #$05\nBNE loop\nRTS\n\nend:\nBRK",
        &[0x20, 0x09, 0x00, 0x20, 0x0c, 0x00, 0x20, 0x12, 0x00, 0xa2, 0x00, 0x60, 0xe8, 0xe0, 0x05, 0xd0, 0xfb, 0x60, 0x00],
    );
    check(
        b"\n.ORG $0600 ; change location\n\nJSR init\nJSR loop\nJSR end\n\ninit:\nLDX #$00\nRTS\n\nloop:\nINX\nCPX #$05\nBNE loop\nRTS\n\nend:\nBRK",
        &[0x20, 0x09, 0x06, 0x20, 0x0c, 0x06, 0x20, 0x12, 0x06, 0xa2, 0x00, 0x60, 0xe8, 0xe0, 0x05, 0xd0, 0xfb, 0x60, 0x00],
    );
    check(
        b"IOSAVE          = $FF4A ; save the A, X, and Y registers\nIOREST          = $FF3F ; restore the A, X, and Y registers\n\nlda IOSAVE\nLDx IOREST",
        &[0xad, 0x4a, 0xff, 0xae, 0x3f, 0xff],
    );
    check(b".ascii \"abcd\"", &[0x61, 0x62, 0x63, 0x64]);
    check(b".asciiz \"abcd\"", &[0x61, 0x62, 0x63, 0x64, 0x00]);
    check(b".byte $ff", &[0xFF]);
    check(b".byte $11, $22,$33,$44", &[0x11, 0x22, 0x33, 0x44]);
    check(b".word $2211, $4433,$6655, $8877", &[0x11, 0x22, 0x33, 0x44, 0x55, 0x66, 0x77, 0x88]);
    check(b".byte $ff\n.asciiz \"abcd\"", &[0xFF, 0x61, 0x62, 0x63, 0x64, 0x00]);
    check(b".word $ccff", &[0xff, 0xcc]);
    check(b".word $ff", &[0xff, 0x00]);
    check(b"AND #$dd", &[0x29, 0xdd]);
    check(b"AND #$ffdd", &[0x29, 0xdd]);
    check(b"AND $dd", &[0x25, 0xdd]);
    check(b"AND $ffdd", &[0x2d, 0xdd, 0xff]);
    check(b"AND ($ff, x)", &[0x21, 0xff]);
    check(b"AND ($00ff, x)", &[0x21, 0xff]);
    check(b"AND ($ff),Y", &[0x31, 0xff]);
    check(b"LDX $ff,Y", &[0xb6, 0xff]);
    check(b"AND $ff,x", &[0x35, 0xff]);
    check(b"AND $ffdd , x", &[0x3d, 0xdd, 0xff]);
    check(b"LDX $ffdd , y", &[0xBE, 0xdd, 0xff]);
    check(b"JMP ($ffdd)", &[0x6c, 0xdd, 0xff]);
    check(
        b"LDX #$08\ndecrement2:\n    STX $0201\n.decrement:\n    DEX\n    STX $0200\n    CPX #$03\n    BNE .decrement\n    BNE decrement2\n    STX $0201\n    BRK",
        &[0xA2, 0x08, 0x8E, 0x01, 0x02, 0xCA, 0x8E, 0x00, 0x02, 0xE0, 0x03, 0xD0, 0xF8, 0xD0, 0xF3, 0x8E, 0x01, 0x02, 0x00],
    );
    check(b"var1 = $10\nvar2 = 22\nvar3 = %11001100\n\nCPX #var1", &[0xe0, 0x10]);
    check(b".dsb 5", &[0x00, 0x00, 0x00, 0x00, 0x00]);
    check(b".dsb 5 , $10", &[0x10, 0x10, 0x10, 0x10, 0x10]);
    check(b".dsw 5", &[0x00, 0x00, 0x00, 0x00, 0x00, 0x00, 0x00, 0x00, 0x00, 0x00]);
    check(b".dsw 5 , $1122", &[0x22, 0x11, 0x22, 0x11, 0x22, 0x11, 0x22, 0x11, 0x22, 0x11]);
}

#[test]
fn binary_read() {
    let mut context = resolved(b".byte $aa\n.INCBIN \"src/tests/bins/test1.bin\"\n.byte $bb");
    let mut generator = CodeGenerator::new();
    match generator.generate(&mut context).unwrap() {
        CodeStatus::Incbin(name) => assert_eq!(name, "src/tests/bins/test1.bin"),
        CodeStatus::Finished => panic!("no file asked for"),
    }
    assert_eq!(generator.index, 2);
    generator.directive_incbin(&mut context.target, &[0x00, 0x01, 0x02, 0x03]);
    assert!(matches!(generator.generate(&mut context).unwrap(), CodeStatus::Finished));
    assert_eq!(context.target, vec![0xaa, 0x00, 0x01, 0x02, 0x03, 0xbb]);
}

#[test]
fn compile_failure() {
    match assemble(b"AND ($ffdd)").unwrap_err() {
        CodeGeneratorError::IllegalOpcode => (),
        _ => {
            panic!("Invalid error code");
        }
    };
}

#[test]
fn local_branch_test() {
    assemble(b".decrement:").unwrap();
    assemble(b"LDX #$08\ndecrement2:\n    STX $0201\n.decrement:\n    DEX\n    STX $0200\n    CPX #$03\n    BNE .decrement\n    BNE decrement2\n    STX $0201\n    BRK").unwrap();
}

#[test]
fn a_missing_mode_is_an_illegal_opcode() {
    assert!(matches!(assemble(b"AND ($ffdd)"), Err(CodeGeneratorError::IllegalOpcode)));
    assert!(matches!(assemble(b"JSR ($ffdd)"), Err(CodeGeneratorError::IllegalOpcode)));
    assert!(matches!(assemble(b"STA #$10"), Err(CodeGeneratorError::IllegalOpcode)));
    assert!(matches!(assemble(b"LDX $10,x"), Err(CodeGeneratorError::IllegalOpcode)));
    assert!(matches!(assemble(b"STX $1000,y"), Err(CodeGeneratorError::IllegalOpcode)));
    assert!(matches!(assemble(b"CPX ($10),y"), Err(CodeGeneratorError::IllegalOpcode)));
    assert!(matches!(assemble(b"JMP $10"), Err(CodeGeneratorError::IllegalOpcode)));
    assert!(matches!(assemble(b"NOP\nASL"), Err(CodeGeneratorError::IllegalOpcode)));
    assert!(matches!(generate_nodes(vec![Ast::InstrImplied(0)]), Err(CodeGeneratorError::IllegalOpcode)));
    assert!(matches!(generate_nodes(vec![Ast::InstrImplied(56)]), Err(CodeGeneratorError::IllegalOpcode)));
    let operand = InstrInfo {
        value: InstrValue::Byte(1),
        is_immediate: true,
        in_parenthesis: false,
        register: InstrInfoRegister::NoRegister,
    };
    assert!(matches!(generate_nodes(vec![Ast::Instr(99, operand)]), Err(CodeGeneratorError::IllegalOpcode)));
}

#[test]
fn a_backward_branch_holds_the_distance_to_its_label() {
    check(
        b"LDX #$08\ndecrement:\nDEX\nSTX $0200\nCPX #$03\nBNE decrement",
        &[0xa2, 0x08, 0xca, 0x8e, 0x00, 0x02, 0xe0, 0x03, 0xd0, 0xf8],
    );
    check(b"here:\nBNE here", &[0xd0, 0xfe]);
    check(b"BNE $10", &[0xd0, 0x10]);
}

#[test]
fn what_follows_leaves_the_bytes_before_it() {
    let head = [0xa2, 0x08, 0xca, 0x8e, 0x00, 0x02, 0xe0, 0x03, 0xd0, 0xf8];
    let source = b"LDX #$08\ndecrement:\nDEX\nSTX $0200\nCPX #$03\nBNE decrement";
    for tail in [&b""[..], b"\nBRK", b"\nother:\nJMP other\nBNE decrement", b"\n.dsb 200\nBNE last\nlast:"] {
        let mut data = source.to_vec();
        data.extend_from_slice(tail);
        let codes = assemble(&data).unwrap();
        assert_eq!(&codes[..head.len()], &head[..]);
    }
}

#[test]
fn a_forward_branch_is_closed_at_the_end() {
    check(b"BNE there\nthere:", &[0xd0, 0x00]);
    check(b"BEQ there\nNOP\nNOP\nthere:\nBRK", &[0xf0, 0x02, 0xea, 0xea, 0x00]);
    check(b"BNE there\n.dsb 127\nthere:", &{
        let mut codes = vec![0xd0, 0x7f];
        codes.extend(vec![0u8; 127]);
        codes
    });
    check(b"BNE there\n.dsb 130\nthere:", &{
        let mut codes = vec![0xd0, 0x82];
        codes.extend(vec![0u8; 130]);
        codes
    });
}

#[test]
fn an_undefined_label_fails_only_at_the_end() {
    let mut context = resolved(b"BNE nowhere\nNOP\nJMP ($10)");
    let mut generator = CodeGenerator::new();
    assert!(matches!(generator.generate(&mut context), Err(CodeGeneratorError::UnresolvedBranches)));
    assert_eq!(generator.index, 3);
    assert_eq!(generator.unresolved_relative_jump.len(), 1);
    assert_eq!(generator.unresolved_relative_jump[0].name, "nowhere");
    assert_eq!(generator.unresolved_relative_jump[0].position, 1);
    assert_eq!(generator.unresolved_relative_jump[0].ast_index, 0);
    assert!(matches!(assemble(b"JMP nowhere"), Err(CodeGeneratorError::UnresolvedBranches)));
    assert!(matches!(assemble(b"BNE .nowhere"), Err(CodeGeneratorError::UnresolvedBranches)));
    let mut context = resolved(b"JMP nowhere\nAND ($ffdd)");
    let mut generator = CodeGenerator::new();
    assert!(matches!(generator.generate(&mut context), Err(CodeGeneratorError::IllegalOpcode)));
    assert_eq!(generator.index, 2);
}

#[test]
fn local_labels_live_in_their_scope() {
    check(
        b"first:\n.loop:\nDEX\nBNE .loop\nsecond:\n.loop:\nDEY\nBNE .loop",
        &[0xca, 0xd0, 0xfd, 0x88, 0xd0, 0xfd],
    );
    check(
        b"first:\nBNE .skip\nNOP\n.skip:\nsecond:\nBNE .skip\nNOP\nNOP\n.skip:\nBRK",
        &[0xd0, 0x01, 0xea, 0xd0, 0x02, 0xea, 0xea, 0x00],
    );
    assert!(matches!(
        assemble(b"first:\nBNE .skip\nsecond:\n.skip:\nBRK"),
        Err(CodeGeneratorError::UnresolvedBranches)
    ));
    assert!(matches!(
        assemble(b"first:\n.skip:\nNOP\nsecond:\nBNE .skip\nBRK"),
        Err(CodeGeneratorError::UnresolvedBranches)
    ));
    let mut context = resolved(b"first:\nBNE .skip\nsecond:\n.skip:\nBRK");
    let mut generator = CodeGenerator::new();
    assert!(generator.generate(&mut context).is_err());
    assert_eq!(generator.index, 5);
    assert_eq!(generator.orphaned_local_branches.len(), 1);
    assert_eq!(generator.orphaned_local_branches[0].name, "skip");
    assert!(generator.unresolved_local_branches.is_empty());
    assert_eq!(context.target, vec![0xd0, 0x00, 0x00]);
}

#[test]
fn jumps_hold_the_start_address_plus_the_place() {
    check(
        b".ORG $0600\nJSR init\nJSR end\ninit:\nRTS\nend:\nBRK",
        &[0x20, 0x06, 0x06, 0x20, 0x07, 0x06, 0x60, 0x00],
    );
    check(b".ORG $0600\nNOP\nback:\nNOP\nJMP back", &[0xea, 0xea, 0x4c, 0x01, 0x06]);
    check(b".org $1000\ntable:\n.byte 1, 2\nLDA table,x\nLDA table", &[1, 2, 0xbd, 0x00, 0x10, 0xad, 0x00, 0x10]);
    check(b".org $ffff\nNOP\nNOP\nhere:\nJMP here", &[0xea, 0xea, 0x4c, 0x01, 0x00]);
    check(b"JMP (vector)\nvector:\n.word $1234", &[0x6c, 0x03, 0x00, 0x34, 0x12]);
    check(b"JMP there\n.ORG $0600\nthere:", &[0x4c, 0x03, 0x06]);
    check(b"here:\n.dsb 3\nJMP .near\n.near:\nJMP .near", &[0, 0, 0, 0x4c, 0x06, 0x00, 0x4c, 0x06, 0x00]);
}

#[test]
fn the_start_address_counts_from_where_it_is_set() {
    check(b"here:\nJMP here\n.org $0100\nJMP here", &[0x4c, 0x00, 0x00, 0x4c, 0x00, 0x01]);
    check(b"JMP there\n.org $0100\nJMP there\n.org $0200\nthere:", &[0x4c, 0x06, 0x02, 0x4c, 0x06, 0x02]);
}

#[test]
fn a_label_fits_no_operand_of_one_byte() {
    assert!(matches!(assemble(b"label:\nLDA #label"), Err(CodeGeneratorError::UnresolvedReference)));
    assert!(matches!(assemble(b"LDA #label\nlabel:"), Err(CodeGeneratorError::UnresolvedReference)));
    assert!(matches!(assemble(b"label:\nLDA (label),y"), Err(CodeGeneratorError::UnresolvedReference)));
    assert!(matches!(assemble(b"label:\nLDA (label,x)"), Err(CodeGeneratorError::UnresolvedReference)));
    assert!(matches!(assemble(b"label:\nJMP #label"), Err(CodeGeneratorError::IllegalOpcode)));
}

#[test]
fn storage_directives_repeat_their_fill() {
    check(b".DSB 5, $10", &[0x10; 5]);
    check(b".DSW 5", &[0x00; 10]);
    check(b".dsb 0", &[]);
    check(b".dsb 300", &[0x00; 300]);
    check(b".dsw 2, $0a", &[0x0a, 0x00, 0x0a, 0x00]);
    check(b".dsw 300, $0102", &{
        let mut codes = Vec::new();
        for _ in 0..300 {
            codes.push(0x02);
            codes.push(0x01);
        }
        codes
    });
    assert!(matches!(assemble(b".dsb count"), Err(CodeGeneratorError::UnsupportedDirectiveValue)));
    assert!(matches!(assemble(b".dsb 2, fill"), Err(CodeGeneratorError::UnsupportedDirectiveValue)));
    assert!(matches!(assemble(b".dsw 2, fill"), Err(CodeGeneratorError::UnsupportedDirectiveValue)));
    assert!(matches!(
        generate_nodes(vec![Ast::Directive(DirectiveEnum::Dsw, vec![])]),
        Err(CodeGeneratorError::UnsupportedDirectiveValue)
    ));
    let three = vec![DirectiveValue::Byte(1), DirectiveValue::Byte(2), DirectiveValue::Byte(3)];
    assert!(matches!(
        generate_nodes(vec![Ast::Directive(DirectiveEnum::Dsb, three.clone())]),
        Err(CodeGeneratorError::UnsupportedDirectiveValue)
    ));
    assert!(matches!(
        generate_nodes(vec![Ast::Directive(DirectiveEnum::Dsw, three)]),
        Err(CodeGeneratorError::UnsupportedDirectiveValue)
    ));
    assert!(matches!(
        generate_nodes(vec![Ast::Directive(
            DirectiveEnum::Dsb,
            vec![DirectiveValue::Byte(2), DirectiveValue::Word(0x1234)]
        )]),
        Err(CodeGeneratorError::UnsupportedDirectiveValue)
    ));
    assert!(matches!(
        generate_nodes(vec![Ast::Directive(
            DirectiveEnum::Dsw,
            vec![DirectiveValue::Byte(2), DirectiveValue::String("a".to_string())]
        )]),
        Err(CodeGeneratorError::UnsupportedDirectiveValue)
    ));
}

#[test]
fn padding_fills_up_to_a_length() {
    check(b"NOP\n.pad $0004", &[0xea, 0, 0, 0]);
    check(b"NOP\n.fillvalue $ff\n.pad $0004\n.pad $0002", &[0xea, 0xff, 0xff, 0xff]);
    check(b".fillvalue $ff\n.dsb 2\n.pad $0003", &[0, 0, 0xff]);
    assert!(matches!(assemble(b".pad name"), Err(CodeGeneratorError::ExpectedThis("word"))));
    assert!(matches!(assemble(b".fillvalue name"), Err(CodeGeneratorError::ExpectedThis("Byte information"))));
    assert!(matches!(assemble(b".org name"), Err(CodeGeneratorError::ExpectedThis("Word information"))));
    assert!(matches!(
        generate_nodes(vec![Ast::Directive(DirectiveEnum::Pad, vec![])]),
        Err(CodeGeneratorError::UnsupportedDirectiveValue)
    ));
    assert!(matches!(
        generate_nodes(vec![Ast::Directive(DirectiveEnum::Org, vec![])]),
        Err(CodeGeneratorError::UnsupportedDirectiveValue)
    ));
    assert!(matches!(
        generate_nodes(vec![Ast::Directive(DirectiveEnum::Fillvalue, vec![])]),
        Err(CodeGeneratorError::UnsupportedDirectiveValue)
    ));
}

#[test]
fn data_directives_append_their_bytes() {
    check(b".byte 1, \"ab\", 2", &[1, 0x61, 0x62, 2]);
    check(b".db \"\"", &[]);
    check(b".dw 1, $0203", &[1, 0, 3, 2]);
    check(b".ascii \"a\", \"bc\"", &[0x61, 0x62, 0x63]);
    check(b".asciiz \"a\", \"bc\"", &[0x61, 0, 0x62, 0x63, 0]);
    check(b".asciiz \"\"", &[0]);
    check("\u{2e}ascii \"h\u{e9}\"".as_bytes(), &[0x68, 0xc3, 0xa9]);
    assert_eq!(
        generate_nodes(vec![Ast::Directive(
            DirectiveEnum::Asciiz,
            vec![DirectiveValue::String("a\0".to_string())]
        )])
        .unwrap(),
        vec![0x61, 0]
    );
    assert!(matches!(assemble(b".byte name"), Err(CodeGeneratorError::ExpectedThis("byte or &String"))));
    assert!(matches!(assemble(b".word name"), Err(CodeGeneratorError::ExpectedThis("word"))));
    assert!(matches!(assemble(b".ascii name"), Err(CodeGeneratorError::ExpectedThis("string"))));
    assert!(matches!(assemble(b"NOP\n.byte 1, name"), Err(CodeGeneratorError::ExpectedThis("byte or &String"))));
    assert!(matches!(assemble(b".incbin name"), Err(CodeGeneratorError::StringExpected)));
    assert!(matches!(
        generate_nodes(vec![Ast::Directive(DirectiveEnum::Incbin, vec![])]),
        Err(CodeGeneratorError::StringExpected)
    ));
    assert_eq!(
        generate_nodes(vec![Ast::Directive(DirectiveEnum::Include, vec![DirectiveValue::Byte(1)])]).unwrap(),
        Vec::<u8>::new()
    );
}

#[test]
fn a_failed_directive_leaves_the_image_as_it_was() {
    let mut context = resolved(b"NOP\n.byte 1, 2, name\nNOP");
    let mut generator = CodeGenerator::new();
    assert!(generator.generate(&mut context).is_err());
    assert_eq!(generator.index, 2);
    assert_eq!(context.target, vec![0xea]);
}

#[test]
fn warnings_are_kept_and_failures_stop_the_pass() {
    let mut context = resolved(b"NOP\n.warning \"value \", $0a, \" and \", $1234\n.warning \"two\"\nNOP");
    let mut generator = CodeGenerator::new();
    assert!(matches!(generator.generate(&mut context).unwrap(), CodeStatus::Finished));
    assert_eq!(generator.warnings, vec!["value 0x0A and 0x1234".to_string(), "two".to_string()]);
    assert_eq!(context.target, vec![0xea, 0xea]);

    let mut context = resolved(b"NOP\n.fail \"stop here\"\nNOP");
    let mut generator = CodeGenerator::new();
    match generator.generate(&mut context) {
        Err(CodeGeneratorError::ProgramFailed(message)) => assert_eq!(message, "stop here"),
        other => panic!("unexpected: {:?}", other),
    }
    assert_eq!(generator.index, 2);
    match assemble(b".fail $05") {
        Err(CodeGeneratorError::ProgramFailed(message)) => assert_eq!(message, "0x05"),
        other => panic!("unexpected: {:?}", other),
    }
    assert!(matches!(assemble(b".fail name"), Err(CodeGeneratorError::ExpectedThis("string"))));
    assert!(matches!(assemble(b".warning name"), Err(CodeGeneratorError::ExpectedThis("string"))));
}

#[test]
fn a_reference_outside_the_image_is_an_internal_error() {
    let mut context = resolved(b"there:\nNOP");
    let mut generator = CodeGenerator::new();
    generator.unresolved_relative_jump.push(Fixup {
        name: "there".to_string(),
        position: 1,
        ast_index: 0,
        kind: FixupKind::Relative,
    });
    assert!(matches!(generator.generate(&mut context), Err(CodeGeneratorError::InternalError)));

    let mut context = resolved(b"there:\nNOP\nNOP");
    let mut generator = CodeGenerator::new();
    generator.unresolved_absolute_jumps.push(Fixup {
        name: "there".to_string(),
        position: 1,
        ast_index: 0,
        kind: FixupKind::Absolute,
    });
    assert!(matches!(generator.generate(&mut context), Err(CodeGeneratorError::InternalError)));

    let mut context = resolved(b"there:\nNOP\nNOP");
    let mut generator = CodeGenerator::new();
    generator.start_point = 0x0600;
    generator.unresolved_absolute_jumps.push(Fixup {
        name: "there".to_string(),
        position: 0,
        ast_index: 0,
        kind: FixupKind::Absolute,
    });
    assert!(matches!(generator.generate(&mut context).unwrap(), CodeStatus::Finished));
    assert_eq!(context.target, vec![0x00, 0x06]);
}

#[test]
fn a_failed_pass_leaves_the_image_as_it_stood() {
    let mut context = resolved(b"BNE first
JMP second
first:
NOP");
    let mut generator = CodeGenerator::new();
    assert!(matches!(generator.generate(&mut context), Err(CodeGeneratorError::UnresolvedBranches)));
    assert_eq!(context.target, vec![0xd0, 0x00, 0x4c, 0x00, 0x00, 0xea]);
    assert_eq!(generator.index, 4);
    assert_eq!(generator.unresolved_relative_jump.len(), 1);
    assert_eq!(generator.unresolved_absolute_jumps.len(), 1);

    let mut context = resolved(b"NOP
BNE .near
.near:
NOP");
    let mut generator = CodeGenerator::new();
    generator.unresolved_local_branches.push(Fixup {
        name: "near".to_string(),
        position: 9,
        ast_index: 0,
        kind: FixupKind::Relative,
    });
    assert!(matches!(generator.generate(&mut context), Err(CodeGeneratorError::InternalError)));
    assert_eq!(generator.index, 3);
    assert_eq!(context.target, vec![0xea, 0xd0, 0x00]);
    assert_eq!(generator.unresolved_local_branches.len(), 2);
    assert_eq!(generator.local_branches.len(), 0);
}

#[test]
fn labels_may_be_defined_again() {
    check(b"here:\nNOP\nhere:\nJMP here", &[0xea, 0x4c, 0x01, 0x00]);
    check(b"JMP here\nhere:\nNOP\nhere:", &[0x4c, 0x04, 0x00, 0xea]);
    assert_eq!(
        generate_nodes(vec![
            Ast::Branch("a".to_string(), BranchType::Generic),
            Ast::InstrImplied(33),
            Ast::Branch("a".to_string(), BranchType::Local),
            Ast::Instr(
                8,
                InstrInfo {
                    value: InstrValue::Reference("a".to_string()),
                    is_immediate: false,
                    in_parenthesis: false,
                    register: InstrInfoRegister::NoRegister,
                }
            ),
        ])
        .unwrap(),
        vec![0xea, 0xd0, 0xfd]
    );
}

#[test]
fn a_new_pass_starts_clean() {
    let generator = CodeGenerator::new();
    assert_eq!((generator.index, generator.size, generator.silent), (0, 0, false));
    assert_eq!((generator.start_point, generator.fillvalue), (0, 0));
    assert_eq!(generator.branches.len(), 0);
    assert_eq!(generator.local_branches.len(), 0);
    assert!(generator.unresolved_relative_jump.is_empty());
    assert!(generator.unresolved_absolute_jumps.is_empty());
    assert!(generator.unresolved_local_branches.is_empty());
    assert!(generator.orphaned_local_branches.is_empty());
    assert!(generator.warnings.is_empty());
    assert_eq!(generate_nodes(vec![]).unwrap(), Vec::<u8>::new());
}

#[test]
fn an_instruction_is_written_alone() {
    let mut generator = CodeGenerator::new();
    let mut target = vec![0xea];
    let indirect = InstrInfo {
        value: InstrValue::Word(0xffdd),
        is_immediate: false,
        in_parenthesis: true,
        register: InstrInfoRegister::NoRegister,
    };
    assert!(matches!(generator.generate_instr(&mut target, 0, 1, &indirect), Err(CodeGeneratorError::IllegalOpcode)));
    assert_eq!(target, vec![0xea]);
    generator.generate_instr(&mut target, 0, 27, &indirect).unwrap();
    assert_eq!(target, vec![0xea, 0x6c, 0xdd, 0xff]);
    assert!(matches!(generator.generate_implied(&mut target, 2), Err(CodeGeneratorError::IllegalOpcode)));
    generator.generate_implied(&mut target, 33).unwrap();
    assert_eq!(target, vec![0xea, 0x6c, 0xdd, 0xff, 0xea]);
    assert!(generator.unresolved_relative_jump.is_empty());
    assert!(generator.unresolved_absolute_jumps.is_empty());
}

#[test]
fn a_branch_operand_is_built_alone() {
    let mut generator = CodeGenerator::new();
    generator.branches.insert("back".to_string(), 2);
    let name = "back".to_string();
    let number = CodeGenerator::build_relative_jump(9, 5, &name, &generator.branches, &mut generator.unresolved_relative_jump);
    assert_eq!(number, 0xf8);
    assert!(generator.unresolved_relative_jump.is_empty());
    let number = CodeGenerator::build_relative_jump(1, 5, &name, &generator.branches, &mut generator.unresolved_relative_jump);
    assert_eq!(number, 0);
    let far = "far".to_string();
    let number = CodeGenerator::build_relative_jump(9, 5, &far, &generator.branches, &mut generator.unresolved_relative_jump);
    assert_eq!(number, 0);
    assert_eq!(generator.unresolved_relative_jump.len(), 1);
    assert_eq!(generator.unresolved_relative_jump[0].name, "far");
    assert_eq!(generator.unresolved_relative_jump[0].position, 9);
    assert_eq!(generator.unresolved_relative_jump[0].ast_index, 5);
    assert_eq!(generator.unresolved_relative_jump[0].kind, FixupKind::Relative);
    let number = CodeGenerator::build_absolute_jump(9, 5, &name, 0x0600, &generator.branches, &mut generator.unresolved_absolute_jumps);
    assert_eq!(number, 0x0602);
    let number = CodeGenerator::build_absolute_jump(9, 6, &far, 0x0600, &generator.branches, &mut generator.unresolved_absolute_jumps);
    assert_eq!(number, 0);
    assert_eq!(generator.unresolved_absolute_jumps.len(), 1);
    assert_eq!(generator.unresolved_absolute_jumps[0].kind, FixupKind::Absolute);
}

#[test]
fn deferred_references_are_closed_alone() {
    let mut generator = CodeGenerator::new();
    generator.start_point = 0x0600;
    generator.branches.insert("there".to_string(), 9);
    generator.unresolved_relative_jump.push(Fixup {
        name: "there".to_string(),
        position: 1,
        ast_index: 0,
        kind: FixupKind::Relative,
    });
    generator.unresolved_relative_jump.push(Fixup {
        name: "there".to_string(),
        position: 12,
        ast_index: 1,
        kind: FixupKind::Relative,
    });
    generator.unresolved_absolute_jumps.push(Fixup {
        name: "there".to_string(),
        position: 4,
        ast_index: 2,
        kind: FixupKind::Absolute,
    });
    let mut target = vec![0xaa; 14];
    generator.build_unresolved_relative_jump(&mut target).unwrap();
    assert_eq!(target, vec![0xaa, 0x07, 0xaa, 0xaa, 0xaa, 0xaa, 0xaa, 0xaa, 0xaa, 0xaa, 0xaa, 0xaa, 0xfc, 0xaa]);
    generator.build_unresolved_jumps(&mut target).unwrap();
    assert_eq!(target, vec![0xaa, 0x07, 0xaa, 0xaa, 0x09, 0x06, 0xaa, 0xaa, 0xaa, 0xaa, 0xaa, 0xaa, 0xfc, 0xaa]);
    assert_eq!(generator.branches.len(), 1);
    assert_eq!(generator.unresolved_relative_jump.len(), 2);

    generator.unresolved_absolute_jumps.push(Fixup {
        name: "nowhere".to_string(),
        position: 6,
        ast_index: 3,
        kind: FixupKind::Absolute,
    });
    assert!(matches!(generator.build_unresolved_jumps(&mut target), Err(CodeGeneratorError::UnresolvedBranches)));

    generator.unresolved_local_branches.push(Fixup {
        name: "near".to_string(),
        position: 7,
        ast_index: 4,
        kind: FixupKind::Relative,
    });
    generator.unresolved_local_branches.push(Fixup {
        name: "other".to_string(),
        position: 8,
        ast_index: 5,
        kind: FixupKind::Relative,
    });
    generator.build_unresolved_local_branches(&mut target, &"near".to_string(), 14).unwrap();
    assert_eq!(target[7], 0x06);
    assert_eq!(target[8], 0xaa);
    assert_eq!(generator.unresolved_local_branches.len(), 1);
    assert_eq!(generator.unresolved_local_branches[0].name, "other");
}
