use std::path::PathBuf;
use timu6502asm::context::Context;
use timu6502asm::directive::{
    accepts_kind, find_directive, DirectiveEnum, DirectiveType, DirectiveValue, DirectiveVariableSize,
};
use timu6502asm::code_gen::CodeGeneratorError;
use timu6502asm::opcode::{
    find_instr, find_mode, is_branch_instr, is_operandless_instr, ModeInfo, ModeType,
};
use timu6502asm::tool::{decimal_text, eq_ignoring_case, hex_text, upper_case, upper_case_byte};

#[test]
fn upper_case_shifts_the_upper_range() {
    assert_eq!(upper_case(b"abcXYZ09_"), b"ABCXYZ09_".to_vec());
    assert_eq!(upper_case(b""), Vec::<u8>::new());
    assert_eq!(upper_case_byte(b'a'), b'A');
    assert_eq!(upper_case_byte(b'z'), b'Z');
    assert_eq!(upper_case_byte(b'A'), b'A');
    assert_eq!(upper_case_byte(96), 96);
    assert_eq!(upper_case_byte(97), 65);
    assert_eq!(upper_case_byte(b'{'), b'[');
    assert_eq!(upper_case_byte(255), 223);
    assert_eq!(upper_case_byte(0), 0);
}

#[test]
fn words_compare_without_case() {
    assert!(eq_ignoring_case("byte", "BYTE"));
    assert!(eq_ignoring_case("ByTe", "BYTE"));
    assert!(eq_ignoring_case("", ""));
    assert!(!eq_ignoring_case("byt", "BYTE"));
    assert!(!eq_ignoring_case("bytes", "BYTE"));
    assert!(!eq_ignoring_case("b{te", "B[TE"));
    assert!(!eq_ignoring_case("\u{17f}", "S"));
}

#[test]
fn numbers_are_written_out() {
    assert_eq!(decimal_text(0), "0");
    assert_eq!(decimal_text(7), "7");
    assert_eq!(decimal_text(10), "10");
    assert_eq!(decimal_text(65535), "65535");
    assert_eq!(hex_text(0), "0x00");
    assert_eq!(hex_text(5), "0x05");
    assert_eq!(hex_text(0xab), "0xAB");
    assert_eq!(hex_text(0x100), "0x100");
    assert_eq!(hex_text(0xffdd), "0xFFDD");
}

#[test]
fn opcode_table_lookups() {
    assert_eq!(find_instr(b'A', b'D', b'C'), Some(0));
    assert_eq!(find_instr(b'T', b'Y', b'A'), Some(55));
    assert_eq!(find_instr(b'a', b'd', b'c'), None);
    assert_eq!(find_instr(b'X', b'X', b'X'), None);
    assert_eq!(find_mode(1, ModeType::Immediate), Some(ModeInfo { mode: ModeType::Immediate, opcode: 0x29 }));
    assert_eq!(find_mode(1, ModeType::Indirect), None);
    assert_eq!(find_mode(27, ModeType::Indirect), Some(ModeInfo { mode: ModeType::Indirect, opcode: 0x6c }));
    assert_eq!(find_mode(28, ModeType::Absolute), Some(ModeInfo { mode: ModeType::Absolute, opcode: 0x20 }));
    assert_eq!(find_mode(10, ModeType::Implied), Some(ModeInfo { mode: ModeType::Implied, opcode: 0x00 }));
    assert_eq!(find_mode(2, ModeType::Accumulator), Some(ModeInfo { mode: ModeType::Accumulator, opcode: 0x0a }));
    assert_eq!(find_mode(30, ModeType::ZeroPageY), Some(ModeInfo { mode: ModeType::ZeroPageY, opcode: 0xb6 }));
    assert_eq!(find_mode(47, ModeType::IndirectY), Some(ModeInfo { mode: ModeType::IndirectY, opcode: 0x91 }));
    assert_eq!(find_mode(56, ModeType::Implied), None);
    assert_eq!(find_mode(usize::MAX, ModeType::Absolute), None);
    let branches: Vec<usize> = (0..60).filter(|instr| is_branch_instr(*instr)).collect();
    assert_eq!(branches, vec![3, 4, 5, 7, 8, 9, 11, 12]);
    assert!(is_operandless_instr(10));
    assert!(is_operandless_instr(2));
    assert!(!is_operandless_instr(0));
    assert!(!is_operandless_instr(56));
}

#[test]
fn directive_table_lookups() {
    let byte = find_directive("byte").unwrap();
    assert_eq!(byte.name, "BYTE");
    assert_eq!(byte.directive, DirectiveEnum::Byte);
    assert_eq!(byte.size, DirectiveVariableSize::Min(1));
    assert_eq!(byte.values, &[DirectiveType::Byte, DirectiveType::String]);
    assert_eq!(find_directive("DB").unwrap().directive, DirectiveEnum::Byte);
    assert_eq!(find_directive("dw").unwrap().directive, DirectiveEnum::Word);
    assert_eq!(find_directive("Word").unwrap().values, &[DirectiveType::Byte, DirectiveType::Word]);
    let org = find_directive("ORG").unwrap();
    assert_eq!((org.directive, org.size), (DirectiveEnum::Org, DirectiveVariableSize::Length(1)));
    assert_eq!(org.values, &[DirectiveType::Word]);
    assert_eq!(find_directive("incbin").unwrap().directive, DirectiveEnum::Incbin);
    assert_eq!(find_directive("ascii").unwrap().directive, DirectiveEnum::Ascii);
    assert_eq!(find_directive("asciiz").unwrap().directive, DirectiveEnum::Asciiz);
    assert_eq!(find_directive("warning").unwrap().size, DirectiveVariableSize::Min(1));
    assert_eq!(find_directive("fail").unwrap().size, DirectiveVariableSize::Length(1));
    assert_eq!(find_directive("INCLUDE").unwrap().directive, DirectiveEnum::Include);
    assert_eq!(find_directive("pad").unwrap().directive, DirectiveEnum::Pad);
    assert_eq!(find_directive("fillvalue").unwrap().values, &[DirectiveType::Byte]);
    let dsb = find_directive("dsb").unwrap();
    assert_eq!((dsb.directive, dsb.size), (DirectiveEnum::Dsb, DirectiveVariableSize::Between(1, 2)));
    assert_eq!(dsb.values, &[DirectiveType::Byte, DirectiveType::Word]);
    let dsw = find_directive("DSW").unwrap();
    assert_eq!((dsw.directive, dsw.size), (DirectiveEnum::Dsw, DirectiveVariableSize::Between(1, 2)));
    assert_eq!(dsw.values, &[DirectiveType::Byte, DirectiveType::Word]);
    assert!(find_directive("fBNE").is_none());
    assert!(find_directive("").is_none());
    assert!(accepts_kind(&[DirectiveType::Word], DirectiveType::Word));
    assert!(accepts_kind(&[DirectiveType::Word], DirectiveType::Reference));
    assert!(!accepts_kind(&[DirectiveType::Word], DirectiveType::Byte));
    assert!(accepts_kind(&[], DirectiveType::Reference));
    assert!(!accepts_kind(&[], DirectiveType::String));
}

#[test]
fn directive_values_hand_out_their_numbers() {
    assert_eq!(DirectiveValue::Word(0x1234).get_word().unwrap(), 0x1234);
    assert_eq!(DirectiveValue::Byte(0x12).get_byte().unwrap(), 0x12);
    assert!(matches!(
        DirectiveValue::Byte(1).get_word(),
        Err(CodeGeneratorError::ExpectedThis("Word information"))
    ));
    assert!(matches!(
        DirectiveValue::Word(1).get_byte(),
        Err(CodeGeneratorError::ExpectedThis("Byte information"))
    ));
    assert!(DirectiveValue::String("a".to_string()).get_byte().is_err());
    assert!(DirectiveValue::Reference("a".to_string()).get_word().is_err());
    assert_eq!(DirectiveValue::String("a".to_string()).directive_type(), DirectiveType::String);
    assert_eq!(DirectiveValue::Reference("a".to_string()).directive_type(), DirectiveType::Reference);
    assert_eq!(DirectiveValue::String("a".to_string()).clone(), DirectiveValue::String("a".to_string()));
}

#[test]
fn files_are_recorded_relative_to_their_includer() {
    let mut context = Context::new(PathBuf::from("work"));
    assert_eq!(context.add_file(0, PathBuf::from("src/main.asm")), PathBuf::from("work/src/main.asm"));
    assert_eq!(context.last_file_id(), 0);
    assert_eq!(context.add_file(0, PathBuf::from("lib.asm")), PathBuf::from("work/src/lib.asm"));
    assert_eq!(context.last_file_id(), 1);
    assert_eq!(context.add_file(7, PathBuf::from("far.asm")), PathBuf::from("work/far.asm"));
    assert_eq!(
        context.files,
        vec![PathBuf::from("work/src/main.asm"), PathBuf::from("work/src/lib.asm"), PathBuf::from("work/far.asm")]
    );
    assert_eq!(context.code_files.len(), 3);
    assert_eq!(context.code_files[1].path, PathBuf::from("work/src/lib.asm"));
    assert!(context.code_files[1].data.is_empty());
    assert!(context.code_files[1].includes.is_empty());
    context.register_file(PathBuf::from("x.bin"));
    assert_eq!(context.last_file_id(), 3);
    assert_eq!(context.code_files[3].path, PathBuf::from("x.bin"));
}
