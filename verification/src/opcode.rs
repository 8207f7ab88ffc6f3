//! The instruction set: mnemonics, addressing modes and the opcode byte of each
//! pair of the two.

use vstd::prelude::*;

verus! {

/// The operand-encoding scheme of an instruction.
#[derive(Debug, PartialEq, Eq, Copy, Clone, Structural)]
pub enum ModeType {
    ZeroPage,
    Implied,
    Relative,
    Immediate,
    Accumulator,
    Absolute,
    ZeroPageX,
    ZeroPageY,
    AbsoluteX,
    AbsoluteY,
    IndirectX,
    IndirectY,
    Indirect,
}

/// One entry of an instruction's mode table.
#[derive(Debug, PartialEq, Eq, Copy, Clone, Structural)]
pub struct ModeInfo {
    pub mode: ModeType,
    pub opcode: u8,
}

/// How many instructions there are.
pub const INSTS_COUNT: usize = 56;

/// Marks a mode that an instruction does not have.
pub const NONE: u16 = 0x100;

/// The mnemonics, upper case, in table order.
pub const INSTS: [[u8; 3]; 56] = [
    [65, 68, 67], [65, 78, 68], [65, 83, 76], [66, 67, 67],  // ADC AND ASL BCC
    [66, 67, 83], [66, 69, 81], [66, 73, 84], [66, 77, 73],  // BCS BEQ BIT BMI
    [66, 78, 69], [66, 80, 76], [66, 82, 75], [66, 86, 67],  // BNE BPL BRK BVC
    [66, 86, 83], [67, 76, 67], [67, 76, 68], [67, 76, 73],  // BVS CLC CLD CLI
    [67, 76, 86], [67, 77, 80], [67, 80, 88], [67, 80, 89],  // CLV CMP CPX CPY
    [68, 69, 67], [68, 69, 88], [68, 69, 89], [69, 79, 82],  // DEC DEX DEY EOR
    [73, 78, 67], [73, 78, 88], [73, 78, 89], [74, 77, 80],  // INC INX INY JMP
    [74, 83, 82], [76, 68, 65], [76, 68, 88], [76, 68, 89],  // JSR LDA LDX LDY
    [76, 83, 82], [78, 79, 80], [79, 82, 65], [80, 72, 65],  // LSR NOP ORA PHA
    [80, 72, 80], [80, 76, 65], [80, 76, 80], [82, 79, 76],  // PHP PLA PLP ROL
    [82, 79, 82], [82, 84, 73], [82, 84, 83], [83, 66, 67],  // ROR RTI RTS SBC
    [83, 69, 67], [83, 69, 68], [83, 69, 73], [83, 84, 65],  // SEC SED SEI STA
    [83, 84, 88], [83, 84, 89], [84, 65, 88], [84, 65, 89],  // STX STY TAX TAY
    [84, 83, 88], [84, 88, 65], [84, 88, 83], [84, 89, 65],  // TSX TXA TXS TYA
];

/// The length in bytes of the shortest form of each instruction; 1 marks an
/// instruction that takes no operand.
pub const INSTS_SIZE: [u8; 56] = [
    2, 2, 1, 2, 2, 2, 2, 2, 2, 2, 1, 2, 2, 1,
    1, 1, 1, 2, 2, 2, 2, 1, 1, 2, 2, 1, 1, 3,
    3, 2, 2, 2, 1, 1, 2, 1, 1, 1, 1, 1, 1, 1,
    1, 2, 1, 1, 1, 2, 2, 2, 1, 1, 1, 1, 1, 1,
];

/// The opcode byte of each instruction (row) in each addressing mode (column,
/// in the order of `ModeType`), or `NONE`.
pub const OPCODES: [[u16; 13]; 56] = [
    //  zp    impl  rel   imm   acc   abs   zp,X  zp,Y  abs,X abs,Y (zp,X) (zp),Y (abs)
    [0x65, NONE, NONE, 0x69, NONE, 0x6D, 0x75, NONE, 0x7D, 0x79, 0x61, 0x71, NONE],  // ADC
    [0x25, NONE, NONE, 0x29, NONE, 0x2D, 0x35, NONE, 0x3D, 0x39, 0x21, 0x31, NONE],  // AND
    [0x06, NONE, NONE, NONE, 0x0A, 0x0E, 0x16, NONE, 0x1E, NONE, NONE, NONE, NONE],  // ASL
    [NONE, NONE, 0x90, NONE, NONE, NONE, NONE, NONE, NONE, NONE, NONE, NONE, NONE],  // BCC
    [NONE, NONE, 0xB0, NONE, NONE, NONE, NONE, NONE, NONE, NONE, NONE, NONE, NONE],  // BCS
    [NONE, NONE, 0xF0, NONE, NONE, NONE, NONE, NONE, NONE, NONE, NONE, NONE, NONE],  // BEQ
    [0x24, NONE, NONE, NONE, NONE, 0x2C, NONE, NONE, NONE, NONE, NONE, NONE, NONE],  // BIT
    [NONE, NONE, 0x30, NONE, NONE, NONE, NONE, NONE, NONE, NONE, NONE, NONE, NONE],  // BMI
    [NONE, NONE, 0xD0, NONE, NONE, NONE, NONE, NONE, NONE, NONE, NONE, NONE, NONE],  // BNE
    [NONE, NONE, 0x10, NONE, NONE, NONE, NONE, NONE, NONE, NONE, NONE, NONE, NONE],  // BPL
    [NONE, 0x00, NONE, NONE, NONE, NONE, NONE, NONE, NONE, NONE, NONE, NONE, NONE],  // BRK
    [NONE, NONE, 0x50, NONE, NONE, NONE, NONE, NONE, NONE, NONE, NONE, NONE, NONE],  // BVC
    [NONE, NONE, 0x70, NONE, NONE, NONE, NONE, NONE, NONE, NONE, NONE, NONE, NONE],  // BVS
    [NONE, 0x18, NONE, NONE, NONE, NONE, NONE, NONE, NONE, NONE, NONE, NONE, NONE],  // CLC
    [NONE, 0xD8, NONE, NONE, NONE, NONE, NONE, NONE, NONE, NONE, NONE, NONE, NONE],  // CLD
    [NONE, 0x58, NONE, NONE, NONE, NONE, NONE, NONE, NONE, NONE, NONE, NONE, NONE],  // CLI
    [NONE, 0xB8, NONE, NONE, NONE, NONE, NONE, NONE, NONE, NONE, NONE, NONE, NONE],  // CLV
    [0xC5, NONE, NONE, 0xC9, NONE, 0xCD, 0xD5, NONE, 0xDD, 0xD9, 0xC1, 0xD1, NONE],  // CMP
    [0xE4, NONE, NONE, 0xE0, NONE, 0xEC, NONE, NONE, NONE, NONE, NONE, NONE, NONE],  // CPX
    [0xC4, NONE, NONE, 0xC0, NONE, 0xCC, NONE, NONE, NONE, NONE, NONE, NONE, NONE],  // CPY
    [0xC6, NONE, NONE, NONE, NONE, 0xCE, 0xD6, NONE, 0xDE, NONE, NONE, NONE, NONE],  // DEC
    [NONE, 0xCA, NONE, NONE, NONE, NONE, NONE, NONE, NONE, NONE, NONE, NONE, NONE],  // DEX
    [NONE, 0x88, NONE, NONE, NONE, NONE, NONE, NONE, NONE, NONE, NONE, NONE, NONE],  // DEY
    [0x45, NONE, NONE, 0x49, NONE, 0x4D, 0x55, NONE, 0x5D, 0x59, 0x41, 0x51, NONE],  // EOR
    [0xE6, NONE, NONE, NONE, NONE, 0xEE, 0xF6, NONE, 0xFE, NONE, NONE, NONE, NONE],  // INC
    [NONE, 0xE8, NONE, NONE, NONE, NONE, NONE, NONE, NONE, NONE, NONE, NONE, NONE],  // INX
    [NONE, 0xC8, NONE, NONE, NONE, NONE, NONE, NONE, NONE, NONE, NONE, NONE, NONE],  // INY
    [NONE, NONE, NONE, NONE, NONE, 0x4C, NONE, NONE, NONE, NONE, NONE, NONE, 0x6C],  // JMP
    [NONE, NONE, NONE, NONE, NONE, 0x20, NONE, NONE, NONE, NONE, NONE, NONE, NONE],  // JSR
    [0xA5, NONE, NONE, 0xA9, NONE, 0xAD, 0xB5, NONE, 0xBD, 0xB9, 0xA1, 0xB1, NONE],  // LDA
    [0xA6, NONE, NONE, 0xA2, NONE, 0xAE, NONE, 0xB6, NONE, 0xBE, NONE, NONE, NONE],  // LDX
    [0xA4, NONE, NONE, 0xA0, NONE, 0xAC, 0xB4, NONE, 0xBC, NONE, NONE, NONE, NONE],  // LDY
    [0x46, NONE, NONE, NONE, 0x4A, 0x4E, 0x56, NONE, 0x5E, NONE, NONE, NONE, NONE],  // LSR
    [NONE, 0xEA, NONE, NONE, NONE, NONE, NONE, NONE, NONE, NONE, NONE, NONE, NONE],  // NOP
    [0x05, NONE, NONE, 0x09, NONE, 0x0D, 0x15, NONE, 0x1D, 0x19, 0x01, 0x11, NONE],  // ORA
    [NONE, 0x48, NONE, NONE, NONE, NONE, NONE, NONE, NONE, NONE, NONE, NONE, NONE],  // PHA
    [NONE, 0x08, NONE, NONE, NONE, NONE, NONE, NONE, NONE, NONE, NONE, NONE, NONE],  // PHP
    [NONE, 0x68, NONE, NONE, NONE, NONE, NONE, NONE, NONE, NONE, NONE, NONE, NONE],  // PLA
    [NONE, 0x28, NONE, NONE, NONE, NONE, NONE, NONE, NONE, NONE, NONE, NONE, NONE],  // PLP
    [0x26, NONE, NONE, NONE, 0x2A, 0x2E, 0x36, NONE, 0x3E, NONE, NONE, NONE, NONE],  // ROL
    [0x66, NONE, NONE, NONE, 0x6A, 0x6E, 0x76, NONE, 0x7E, NONE, NONE, NONE, NONE],  // ROR
    [NONE, 0x40, NONE, NONE, NONE, NONE, NONE, NONE, NONE, NONE, NONE, NONE, NONE],  // RTI
    [NONE, 0x60, NONE, NONE, NONE, NONE, NONE, NONE, NONE, NONE, NONE, NONE, NONE],  // RTS
    [0xE5, NONE, NONE, 0xE9, NONE, 0xED, 0xF5, NONE, 0xFD, 0xF9, 0xE1, 0xF1, NONE],  // SBC
    [NONE, 0x38, NONE, NONE, NONE, NONE, NONE, NONE, NONE, NONE, NONE, NONE, NONE],  // SEC
    [NONE, 0xF8, NONE, NONE, NONE, NONE, NONE, NONE, NONE, NONE, NONE, NONE, NONE],  // SED
    [NONE, 0x78, NONE, NONE, NONE, NONE, NONE, NONE, NONE, NONE, NONE, NONE, NONE],  // SEI
    [0x85, NONE, NONE, NONE, NONE, 0x8D, 0x95, NONE, 0x9D, 0x99, 0x81, 0x91, NONE],  // STA
    [0x86, NONE, NONE, NONE, NONE, 0x8E, NONE, 0x96, NONE, NONE, NONE, NONE, NONE],  // STX
    [0x84, NONE, NONE, NONE, NONE, 0x8C, 0x94, NONE, NONE, NONE, NONE, NONE, NONE],  // STY
    [NONE, 0xAA, NONE, NONE, NONE, NONE, NONE, NONE, NONE, NONE, NONE, NONE, NONE],  // TAX
    [NONE, 0xA8, NONE, NONE, NONE, NONE, NONE, NONE, NONE, NONE, NONE, NONE, NONE],  // TAY
    [NONE, 0xBA, NONE, NONE, NONE, NONE, NONE, NONE, NONE, NONE, NONE, NONE, NONE],  // TSX
    [NONE, 0x8A, NONE, NONE, NONE, NONE, NONE, NONE, NONE, NONE, NONE, NONE, NONE],  // TXA
    [NONE, 0x9A, NONE, NONE, NONE, NONE, NONE, NONE, NONE, NONE, NONE, NONE, NONE],  // TXS
    [NONE, 0x98, NONE, NONE, NONE, NONE, NONE, NONE, NONE, NONE, NONE, NONE, NONE],  // TYA
];

/// The instructions that branch relative to the program counter.
pub const BRANCH_INSTS: [usize; 8] = [3, 4, 5, 7, 8, 9, 11, 12];

/// The instructions that jump to an absolute address.
pub const JUMP_INSTS: [usize; 2] = [27, 28];

/// The column of a mode in `OPCODES`.
pub open spec fn mode_column(mode: ModeType) -> int {
    match mode {
        ModeType::ZeroPage => 0,
        ModeType::Implied => 1,
        ModeType::Relative => 2,
        ModeType::Immediate => 3,
        ModeType::Accumulator => 4,
        ModeType::Absolute => 5,
        ModeType::ZeroPageX => 6,
        ModeType::ZeroPageY => 7,
        ModeType::AbsoluteX => 8,
        ModeType::AbsoluteY => 9,
        ModeType::IndirectX => 10,
        ModeType::IndirectY => 11,
        ModeType::Indirect => 12,
    }
}

/// The opcode byte of an instruction in a mode, if the instruction has that
/// mode. An index outside the table has no mode at all.
pub open spec fn opcode_of(instr: int, mode: ModeType) -> Option<u8> {
    if 0 <= instr < 56 && OPCODES[instr][mode_column(mode)] < NONE {
        Some(OPCODES[instr][mode_column(mode)] as u8)
    } else {
        None
    }
}

/// Whether the operand of a mode takes two bytes.
pub open spec fn is_wide(mode: ModeType) -> bool {
    mode == ModeType::Absolute || mode == ModeType::AbsoluteX || mode == ModeType::AbsoluteY
        || mode == ModeType::Indirect
}

/// Whether a mode takes no operand.
pub open spec fn is_bare(mode: ModeType) -> bool {
    mode == ModeType::Implied || mode == ModeType::Accumulator
}

/// Whether an instruction is a relative branch.
pub open spec fn is_branch(instr: int) -> bool {
    exists|k: int| 0 <= k < 8 && BRANCH_INSTS[k] == instr
}

/// Whether an instruction takes no operand.
pub open spec fn is_operandless(instr: int) -> bool {
    0 <= instr < 56 && INSTS_SIZE[instr] == 1
}

/// The first instruction from `from` on whose mnemonic is the three bytes.
pub open spec fn mnemonic_from(a: u8, b: u8, c: u8, from: int) -> Option<usize>
    decreases 56 - from,
{
    if from < 0 || from >= 56 {
        None
    } else if INSTS[from][0] == a && INSTS[from][1] == b && INSTS[from][2] == c {
        Some(from as usize)
    } else {
        mnemonic_from(a, b, c, from + 1)
    }
}

/// The instruction whose mnemonic is the three upper-case bytes.
pub open spec fn mnemonic_index(a: u8, b: u8, c: u8) -> Option<usize> {
    mnemonic_from(a, b, c, 0)
}

/// The column of a mode in `OPCODES`.
pub fn column_of(mode: ModeType) -> (column: usize)
    ensures
        column == mode_column(mode),
        column < 13,
{
    match mode {
        ModeType::ZeroPage => 0,
        ModeType::Implied => 1,
        ModeType::Relative => 2,
        ModeType::Immediate => 3,
        ModeType::Accumulator => 4,
        ModeType::Absolute => 5,
        ModeType::ZeroPageX => 6,
        ModeType::ZeroPageY => 7,
        ModeType::AbsoluteX => 8,
        ModeType::AbsoluteY => 9,
        ModeType::IndirectX => 10,
        ModeType::IndirectY => 11,
        ModeType::Indirect => 12,
    }
}

/// Looks an instruction's mode up in the opcode table.
pub fn find_mode(instr: usize, mode: ModeType) -> (entry: Option<ModeInfo>)
    ensures
        match opcode_of(instr as int, mode) {
            Some(opcode) => entry == Some(ModeInfo { mode, opcode }),
            None => entry is None,
        },
{
    if instr >= INSTS_COUNT {
        return None;
    }
    let code: u16 = OPCODES[instr][column_of(mode)];
    if code < NONE {
        Some(ModeInfo { mode, opcode: code as u8 })
    } else {
        None
    }
}

/// Finds the instruction with the given upper-case mnemonic.
pub fn find_instr(a: u8, b: u8, c: u8) -> (position: Option<usize>)
    ensures
        position == mnemonic_index(a, b, c),
        position matches Some(p) ==> p < 56,
{
    let mut i: usize = 0;
    while i < INSTS_COUNT
        invariant
            i <= 56,
            mnemonic_index(a, b, c) == mnemonic_from(a, b, c, i as int),
        decreases 56 - i,
    {
        let name = INSTS[i];
        if name[0] == a && name[1] == b && name[2] == c {
            return Some(i);
        }
        i += 1;
    }
    None
}

/// Whether an instruction is a relative branch.
pub fn is_branch_instr(instr: usize) -> (result: bool)
    ensures
        result == is_branch(instr as int),
{
    let mut k: usize = 0;
    while k < 8
        invariant
            k <= 8,
            forall|j: int| 0 <= j < k ==> BRANCH_INSTS[j] != instr,
        decreases 8 - k,
    {
        if BRANCH_INSTS[k] == instr {
            return true;
        }
        k += 1;
    }
    false
}

/// Whether an instruction takes no operand.
pub fn is_operandless_instr(instr: usize) -> (result: bool)
    ensures
        result == is_operandless(instr as int),
{
    instr < INSTS_COUNT && INSTS_SIZE[instr] == 1
}

} // verus!
