//! What the code generator writes: the image as plain values, what each
//! node does to it, and the pass over all nodes.

use vstd::prelude::*;
use vstd::utf8::encode_utf8;
use crate::ast::{
    AstInfoView, AstView, BranchType, InstrInfoRegister, InstrInfoView, InstrValueView,
};
use crate::code_gen::{CodeGeneratorFault, FixupKind, FixupView};
use crate::directive::{DirectiveEnum, DirectiveValueView};
use crate::opcode::{ModeType, is_bare, is_branch, is_wide, opcode_of};
use crate::tool::{hex_notation, high_byte, low_byte};

verus! {

/// The image under construction and all that the code generator knows of
/// it, as plain values.
#[verifier::ext_equal]
pub struct Image {
    pub output: Seq<u8>,
    pub start_point: u16,
    pub fillvalue: u8,
    pub branches: Map<Seq<char>, usize>,
    pub local_branches: Map<Seq<char>, usize>,
    pub relative: Seq<FixupView>,
    pub absolute: Seq<FixupView>,
    pub local: Seq<FixupView>,
    pub orphaned: Seq<FixupView>,
    pub warnings: Seq<Seq<char>>,
}

/// The byte of a relative branch: the distance from the byte behind the
/// operand at `position` to `target`, in two's complement.
pub open spec fn displacement(target: int, position: int) -> u8 {
    ((target - position - 1) % 256) as u8
}

/// The address of the byte at `offset` in an image that starts at `start`,
/// within 16 bits.
pub open spec fn address(start: u16, offset: int) -> int {
    (start + offset) % 0x10000
}

/// A word as its two bytes, low byte first.
pub open spec fn word_bytes(number: int) -> Seq<u8> {
    seq![low_byte(number), high_byte(number)]
}

/// The image with the operand of `fixup` written for a label at `target`,
/// if the operand lies within the image.
pub open spec fn patched(
    output: Seq<u8>,
    fixup: FixupView,
    target: int,
    start: u16,
) -> Option<Seq<u8>> {
    match fixup.kind {
        FixupKind::Relative => if 0 <= fixup.position < output.len() {
            Some(output.update(fixup.position, displacement(target, fixup.position)))
        } else {
            None
        },
        FixupKind::Absolute => if 0 <= fixup.position && fixup.position + 1 < output.len() {
            Some(
                output.update(fixup.position, low_byte(address(start, target))).update(
                    fixup.position + 1,
                    high_byte(address(start, target)),
                ),
            )
        } else {
            None
        },
    }
}

/// The image with the references from `from` on written, each for the label
/// that it names. A reference to a label that `symbols` does not hold is
/// unresolved.
pub open spec fn settle(
    output: Seq<u8>,
    fixups: Seq<FixupView>,
    from: int,
    symbols: Map<Seq<char>, usize>,
    start: u16,
) -> Result<Seq<u8>, CodeGeneratorFault>
    decreases fixups.len() - from,
{
    if from < 0 || from >= fixups.len() {
        Ok(output)
    } else if !symbols.contains_key(fixups[from].name) {
        Err(CodeGeneratorFault::UnresolvedBranches)
    } else {
        match patched(output, fixups[from], symbols[fixups[from].name] as int, start) {
            None => Err(CodeGeneratorFault::InternalError),
            Some(written) => settle(written, fixups, from + 1, symbols, start),
        }
    }
}

/// The image with those references from `from` on written that name the
/// local label `name`, which stands at `target`; and, behind `kept`, the
/// references that name another label, in their order.
pub open spec fn settle_named(
    output: Seq<u8>,
    fixups: Seq<FixupView>,
    from: int,
    name: Seq<char>,
    target: int,
    start: u16,
    kept: Seq<FixupView>,
) -> Result<(Seq<u8>, Seq<FixupView>), CodeGeneratorFault>
    decreases fixups.len() - from,
{
    if from < 0 || from >= fixups.len() {
        Ok((output, kept))
    } else if fixups[from].name != name {
        settle_named(output, fixups, from + 1, name, target, start, kept.push(fixups[from]))
    } else {
        match patched(output, fixups[from], target, start) {
            None => Err(CodeGeneratorFault::InternalError),
            Some(written) => settle_named(written, fixups, from + 1, name, target, start, kept),
        }
    }
}

/// The image at the end of the pass: every deferred reference to a global
/// label written, the relative ones first. A reference to a local label
/// that is still open, or was when its scope ended, is unresolved.
pub open spec fn finish(image: Image) -> Result<Seq<u8>, CodeGeneratorFault> {
    match settle(image.output, image.relative, 0, image.branches, image.start_point) {
        Err(fault) => Err(fault),
        Ok(branched) => match settle(branched, image.absolute, 0, image.branches, image.start_point) {
            Err(fault) => Err(fault),
            Ok(jumped) => if image.local.len() > 0 || image.orphaned.len() > 0 {
                Err(CodeGeneratorFault::UnresolvedBranches)
            } else {
                Ok(jumped)
            },
        },
    }
}

/// The addressing mode of an instruction with the operand `info`: relative
/// for a branch; else immediate behind a `#`; else indirect in parentheses;
/// else zero page for a byte and absolute for a word or a label; the index
/// register tells the rest.
pub open spec fn operand_mode(instr: int, info: InstrInfoView) -> ModeType {
    if is_branch(instr) {
        ModeType::Relative
    } else if info.is_immediate {
        ModeType::Immediate
    } else if info.in_parenthesis {
        match info.register {
            InstrInfoRegister::NoRegister => ModeType::Indirect,
            InstrInfoRegister::X => ModeType::IndirectX,
            InstrInfoRegister::Y => ModeType::IndirectY,
        }
    } else if info.value is Byte {
        match info.register {
            InstrInfoRegister::NoRegister => ModeType::ZeroPage,
            InstrInfoRegister::X => ModeType::ZeroPageX,
            InstrInfoRegister::Y => ModeType::ZeroPageY,
        }
    } else {
        match info.register {
            InstrInfoRegister::NoRegister => ModeType::Absolute,
            InstrInfoRegister::X => ModeType::AbsoluteX,
            InstrInfoRegister::Y => ModeType::AbsoluteY,
        }
    }
}

/// The bytes of a number as the operand of a mode: two for a wide mode, one
/// for the others, none where the mode takes no operand.
pub open spec fn operand_bytes(mode: ModeType, number: int) -> Option<Seq<u8>> {
    if is_bare(mode) {
        None
    } else if is_wide(mode) {
        Some(word_bytes(number))
    } else {
        Some(seq![low_byte(number)])
    }
}

/// The image with `bytes` appended.
pub open spec fn extended(image: Image, bytes: Seq<u8>) -> Image {
    Image {
        output: image.output + bytes,
        start_point: image.start_point,
        fillvalue: image.fillvalue,
        branches: image.branches,
        local_branches: image.local_branches,
        relative: image.relative,
        absolute: image.absolute,
        local: image.local,
        orphaned: image.orphaned,
        warnings: image.warnings,
    }
}

/// The image with one more deferred reference: in the local queue for a
/// local label, else in the queue of its kind.
pub open spec fn deferred(image: Image, fixup: FixupView, local: bool) -> Image {
    Image {
        output: image.output,
        start_point: image.start_point,
        fillvalue: image.fillvalue,
        branches: image.branches,
        local_branches: image.local_branches,
        relative: if !local && fixup.kind == FixupKind::Relative {
            image.relative.push(fixup)
        } else {
            image.relative
        },
        absolute: if !local && fixup.kind == FixupKind::Absolute {
            image.absolute.push(fixup)
        } else {
            image.absolute
        },
        local: if local {
            image.local.push(fixup)
        } else {
            image.local
        },
        orphaned: image.orphaned,
        warnings: image.warnings,
    }
}

/// The image with an instruction appended whose operand is the label `name`.
/// A known label is written at once: as the distance to it in a relative
/// mode, as its address in a wide mode. An unknown one leaves zero bytes and
/// a deferred reference. No other mode takes a label.
pub open spec fn refer(
    image: Image,
    ast_index: int,
    opcode: u8,
    mode: ModeType,
    name: Seq<char>,
    local: bool,
) -> Result<Image, CodeGeneratorFault> {
    let symbols = if local {
        image.local_branches
    } else {
        image.branches
    };
    let position = image.output.len() as int + 1;
    if mode == ModeType::Relative {
        if symbols.contains_key(name) {
            Ok(extended(image, seq![opcode, displacement(symbols[name] as int, position)]))
        } else {
            Ok(
                deferred(
                    extended(image, seq![opcode, 0u8]),
                    FixupView { name, position, ast_index, kind: FixupKind::Relative },
                    local,
                ),
            )
        }
    } else if is_wide(mode) {
        if symbols.contains_key(name) {
            Ok(extended(image, seq![opcode] + word_bytes(address(image.start_point, symbols[name] as int))))
        } else {
            Ok(
                deferred(
                    extended(image, seq![opcode, 0u8, 0u8]),
                    FixupView { name, position, ast_index, kind: FixupKind::Absolute },
                    local,
                ),
            )
        }
    } else {
        Err(CodeGeneratorFault::UnresolvedReference)
    }
}

/// The image with the instruction `instr` and its operand appended. An
/// instruction that lacks the operand's mode is illegal.
pub open spec fn encode_instr(
    image: Image,
    ast_index: int,
    instr: int,
    info: InstrInfoView,
) -> Result<Image, CodeGeneratorFault> {
    let mode = operand_mode(instr, info);
    match opcode_of(instr, mode) {
        None => Err(CodeGeneratorFault::IllegalOpcode),
        Some(opcode) => match info.value {
            InstrValueView::Byte(number) => match operand_bytes(mode, number as int) {
                Some(bytes) => Ok(extended(image, seq![opcode] + bytes)),
                None => Err(CodeGeneratorFault::NumberNotApplicable),
            },
            InstrValueView::Word(number) => match operand_bytes(mode, number as int) {
                Some(bytes) => Ok(extended(image, seq![opcode] + bytes)),
                None => Err(CodeGeneratorFault::NumberNotApplicable),
            },
            InstrValueView::Reference(name) => refer(image, ast_index, opcode, mode, name, false),
            InstrValueView::LocalReference(name) => refer(image, ast_index, opcode, mode, name, true),
        },
    }
}

/// The image with an instruction without operand appended.
pub open spec fn encode_implied(image: Image, instr: int) -> Result<Image, CodeGeneratorFault> {
    match opcode_of(instr, ModeType::Implied) {
        None => Err(CodeGeneratorFault::IllegalOpcode),
        Some(opcode) => Ok(extended(image, seq![opcode])),
    }
}

/// The image with a label defined at its end. A global label starts a new
/// scope: the local labels are forgotten, and the references to local labels
/// that are still open can no longer be closed. A local label closes the
/// open references that name it.
pub open spec fn define_label(
    image: Image,
    name: Seq<char>,
    scope: BranchType,
) -> Result<Image, CodeGeneratorFault> {
    let at = image.output.len() as usize;
    match scope {
        BranchType::Generic => Ok(
            Image {
                output: image.output,
                start_point: image.start_point,
                fillvalue: image.fillvalue,
                branches: image.branches.insert(name, at),
                local_branches: Map::empty(),
                relative: image.relative,
                absolute: image.absolute,
                local: Seq::empty(),
                orphaned: image.orphaned + image.local,
                warnings: image.warnings,
            },
        ),
        BranchType::Local => match settle_named(
            image.output,
            image.local,
            0,
            name,
            at as int,
            image.start_point,
            Seq::empty(),
        ) {
            Err(fault) => Err(fault),
            Ok((output, kept)) => Ok(
                Image {
                    output,
                    start_point: image.start_point,
                    fillvalue: image.fillvalue,
                    branches: image.branches,
                    local_branches: image.local_branches.insert(name, at),
                    relative: image.relative,
                    absolute: image.absolute,
                    local: kept,
                    orphaned: image.orphaned,
                    warnings: image.warnings,
                },
            ),
        },
    }
}

/// `rest` behind `data`, where there is a rest.
pub open spec fn joined<T>(data: Seq<T>, rest: Option<Seq<T>>) -> Option<Seq<T>> {
    match rest {
        Some(rest) => Some(data + rest),
        None => None,
    }
}

/// The bytes of the values from `from` on of a directive that takes bytes
/// and texts, if that is what they are.
pub open spec fn byte_data(values: Seq<DirectiveValueView>, from: int) -> Option<Seq<u8>>
    decreases values.len() - from,
{
    if from < 0 || from >= values.len() {
        Some(Seq::empty())
    } else {
        match values[from] {
            DirectiveValueView::Byte(number) => joined(seq![number], byte_data(values, from + 1)),
            DirectiveValueView::String(text) => joined(encode_utf8(text), byte_data(values, from + 1)),
            _ => None,
        }
    }
}

/// The bytes of the values from `from` on of a directive that takes words,
/// if that is what they are; a byte counts as a word.
pub open spec fn word_data(values: Seq<DirectiveValueView>, from: int) -> Option<Seq<u8>>
    decreases values.len() - from,
{
    if from < 0 || from >= values.len() {
        Some(Seq::empty())
    } else {
        match values[from] {
            DirectiveValueView::Byte(number) => joined(word_bytes(number as int), word_data(values, from + 1)),
            DirectiveValueView::Word(number) => joined(word_bytes(number as int), word_data(values, from + 1)),
            _ => None,
        }
    }
}

/// The bytes of a text, with a zero byte behind them where one is asked for
/// and the text does not end in one.
pub open spec fn text_bytes(text: Seq<char>, zero_ended: bool) -> Seq<u8> {
    let bytes = encode_utf8(text);
    if zero_ended && (bytes.len() == 0 || bytes.last() != 0) {
        bytes.push(0u8)
    } else {
        bytes
    }
}

/// The bytes of the values from `from` on of a directive that takes texts,
/// if that is what they are.
pub open spec fn text_data(
    values: Seq<DirectiveValueView>,
    from: int,
    zero_ended: bool,
) -> Option<Seq<u8>>
    decreases values.len() - from,
{
    if from < 0 || from >= values.len() {
        Some(Seq::empty())
    } else {
        match values[from] {
            DirectiveValueView::String(text) => joined(
                text_bytes(text, zero_ended),
                text_data(values, from + 1, zero_ended),
            ),
            _ => None,
        }
    }
}

/// The message that the values from `from` on spell: texts as they are,
/// numbers in hexadecimal. A reference spells nothing.
pub open spec fn message_text(values: Seq<DirectiveValueView>, from: int) -> Option<Seq<char>>
    decreases values.len() - from,
{
    if from < 0 || from >= values.len() {
        Some(Seq::empty())
    } else {
        match values[from] {
            DirectiveValueView::String(part) => joined(part, message_text(values, from + 1)),
            DirectiveValueView::Word(number) => joined(hex_notation(number as nat), message_text(values, from + 1)),
            DirectiveValueView::Byte(number) => joined(hex_notation(number as nat), message_text(values, from + 1)),
            _ => None,
        }
    }
}

/// `count` times the byte `fill`.
pub open spec fn filled(count: int, fill: u8) -> Seq<u8> {
    Seq::new(count as nat, |i: int| fill)
}

/// `count` times the word `fill`, low byte first.
pub open spec fn filled_words(count: int, fill: int) -> Seq<u8> {
    Seq::new(
        (2 * count) as nat,
        |i: int|
            if i % 2 == 0 {
                low_byte(fill)
            } else {
                high_byte(fill)
            },
    )
}

/// How often a storage directive repeats its unit: its first value.
pub open spec fn storage_count(values: Seq<DirectiveValueView>) -> Option<int> {
    if values.len() == 0 || values.len() > 2 {
        None
    } else {
        match values[0] {
            DirectiveValueView::Byte(number) => Some(number as int),
            DirectiveValueView::Word(number) => Some(number as int),
            _ => None,
        }
    }
}

/// The byte that a byte storage directive repeats: zero where no second
/// value stands, the second value if it is a byte. No other value is a fill
/// byte.
pub open spec fn storage_byte(values: Seq<DirectiveValueView>) -> Option<u8> {
    if values.len() > 1 {
        match values[1] {
            DirectiveValueView::Byte(number) => Some(number),
            _ => None,
        }
    } else {
        Some(0u8)
    }
}

/// The word that a word storage directive repeats: zero where no second
/// value stands, the second value if it is a word or a byte, which counts
/// as a word. No other value is a fill word.
pub open spec fn storage_word(values: Seq<DirectiveValueView>) -> Option<u16> {
    if values.len() > 1 {
        match values[1] {
            DirectiveValueView::Word(number) => Some(number),
            DirectiveValueView::Byte(number) => Some(number as u16),
            _ => None,
        }
    } else {
        Some(0u16)
    }
}

/// The image after a directive that needs no file.
pub open spec fn direct(
    image: Image,
    directive: DirectiveEnum,
    values: Seq<DirectiveValueView>,
) -> Result<Image, CodeGeneratorFault> {
    match directive {
        DirectiveEnum::Org => if values.len() == 0 {
            Err(CodeGeneratorFault::UnsupportedDirectiveValue)
        } else {
            match values[0] {
                DirectiveValueView::Word(number) => Ok(
                    Image {
                        output: image.output,
                        start_point: number,
                        fillvalue: image.fillvalue,
                        branches: image.branches,
                        local_branches: image.local_branches,
                        relative: image.relative,
                        absolute: image.absolute,
                        local: image.local,
                        orphaned: image.orphaned,
                        warnings: image.warnings,
                    },
                ),
                _ => Err(CodeGeneratorFault::ExpectedThis("Word information"@)),
            }
        },
        DirectiveEnum::Fillvalue => if values.len() == 0 {
            Err(CodeGeneratorFault::UnsupportedDirectiveValue)
        } else {
            match values[0] {
                DirectiveValueView::Byte(number) => Ok(
                    Image {
                        output: image.output,
                        start_point: image.start_point,
                        fillvalue: number,
                        branches: image.branches,
                        local_branches: image.local_branches,
                        relative: image.relative,
                        absolute: image.absolute,
                        local: image.local,
                        orphaned: image.orphaned,
                        warnings: image.warnings,
                    },
                ),
                _ => Err(CodeGeneratorFault::ExpectedThis("Byte information"@)),
            }
        },
        DirectiveEnum::Byte => match byte_data(values, 0) {
            Some(data) => Ok(extended(image, data)),
            None => Err(CodeGeneratorFault::ExpectedThis("byte or &String"@)),
        },
        DirectiveEnum::Word => match word_data(values, 0) {
            Some(data) => Ok(extended(image, data)),
            None => Err(CodeGeneratorFault::ExpectedThis("word"@)),
        },
        DirectiveEnum::Ascii => match text_data(values, 0, false) {
            Some(data) => Ok(extended(image, data)),
            None => Err(CodeGeneratorFault::ExpectedThis("string"@)),
        },
        DirectiveEnum::Asciiz => match text_data(values, 0, true) {
            Some(data) => Ok(extended(image, data)),
            None => Err(CodeGeneratorFault::ExpectedThis("string"@)),
        },
        DirectiveEnum::Warning => match message_text(values, 0) {
            Some(message) => Ok(
                Image {
                    output: image.output,
                    start_point: image.start_point,
                    fillvalue: image.fillvalue,
                    branches: image.branches,
                    local_branches: image.local_branches,
                    relative: image.relative,
                    absolute: image.absolute,
                    local: image.local,
                    orphaned: image.orphaned,
                    warnings: image.warnings.push(message),
                },
            ),
            None => Err(CodeGeneratorFault::ExpectedThis("string"@)),
        },
        DirectiveEnum::Fail => match message_text(values, 0) {
            Some(message) => Err(CodeGeneratorFault::ProgramFailed(message)),
            None => Err(CodeGeneratorFault::ExpectedThis("string"@)),
        },
        DirectiveEnum::Pad => if values.len() == 0 {
            Err(CodeGeneratorFault::UnsupportedDirectiveValue)
        } else {
            match values[0] {
                DirectiveValueView::Word(length) => if length > image.output.len() {
                    Ok(extended(image, filled(length - image.output.len(), image.fillvalue)))
                } else {
                    Ok(image)
                },
                _ => Err(CodeGeneratorFault::ExpectedThis("word"@)),
            }
        },
        DirectiveEnum::Dsb => match (storage_count(values), storage_byte(values)) {
            (Some(count), Some(fill)) => Ok(extended(image, filled(count, fill))),
            _ => Err(CodeGeneratorFault::UnsupportedDirectiveValue),
        },
        DirectiveEnum::Dsw => match (storage_count(values), storage_word(values)) {
            (Some(count), Some(fill)) => Ok(extended(image, filled_words(count, fill as int))),
            _ => Err(CodeGeneratorFault::UnsupportedDirectiveValue),
        },
        DirectiveEnum::Include => Ok(image),
        DirectiveEnum::Incbin => Ok(image),
    }
}

/// The image after one node that needs no file.
pub open spec fn step(
    image: Image,
    ast_index: int,
    node: AstView,
) -> Result<Image, CodeGeneratorFault> {
    match node {
        AstView::InstrImplied(instr) => encode_implied(image, instr),
        AstView::Instr(instr, info) => encode_instr(image, ast_index, instr, info),
        AstView::Branch(name, scope) => define_label(image, name, scope),
        AstView::Directive(directive, values) => direct(image, directive, values),
    }
}

/// Why the code generator hands control back without a fault.
pub enum Halt {
    /// Every node was written and every reference closed.
    Finished,
    /// The file `name` is to be read and appended to the image before the
    /// pass goes on.
    Incbin { name: Seq<char> },
}

/// The state in which a pass of the code generator ends. Where the pass ends
/// with a fault, the image is as it stood before the node that failed, or at
/// the end before any reference was closed.
pub struct Generation {
    pub next: int,
    pub image: Image,
    pub outcome: Result<Halt, CodeGeneratorFault>,
}

/// The file that a node asks to append, if it is a directive that does.
pub open spec fn binary_asked(node: AstView) -> Option<Result<Seq<char>, CodeGeneratorFault>> {
    match node {
        AstView::Directive(DirectiveEnum::Incbin, values) => if values.len() > 0 {
            match values[0] {
                DirectiveValueView::String(name) => Some(Ok(name)),
                _ => Some(Err(CodeGeneratorFault::StringExpected)),
            }
        } else {
            Some(Err(CodeGeneratorFault::StringExpected))
        },
        _ => None,
    }
}

/// The pass of the code generator over the nodes from `pos` on: node after
/// node, up to the first fault or the first file to append; behind the last
/// node the deferred references are closed.
pub open spec fn generation(nodes: Seq<AstInfoView>, pos: int, image: Image) -> Generation
    decreases nodes.len() - pos,
{
    if pos < 0 || pos >= nodes.len() {
        match finish(image) {
            Ok(output) => Generation {
                next: pos,
                image: Image {
                    output,
                    start_point: image.start_point,
                    fillvalue: image.fillvalue,
                    branches: image.branches,
                    local_branches: image.local_branches,
                    relative: image.relative,
                    absolute: image.absolute,
                    local: image.local,
                    orphaned: image.orphaned,
                    warnings: image.warnings,
                },
                outcome: Ok(Halt::Finished),
            },
            Err(fault) => Generation { next: pos, image, outcome: Err(fault) },
        }
    } else {
        match binary_asked(nodes[pos].ast) {
            Some(Ok(name)) => Generation { next: pos + 1, image, outcome: Ok(Halt::Incbin { name }) },
            Some(Err(fault)) => Generation { next: pos + 1, image, outcome: Err(fault) },
            None => match step(image, pos, nodes[pos].ast) {
                Ok(written) => generation(nodes, pos + 1, written),
                Err(fault) => Generation { next: pos + 1, image, outcome: Err(fault) },
            },
        }
    }
}

/// The fault of the first reference from `from` on that cannot be closed in
/// an image of the given length: unresolved if `symbols` lacks its label,
/// internal if its operand lies outside the image.
pub open spec fn blocked(
    fixups: Seq<FixupView>,
    from: int,
    symbols: Map<Seq<char>, usize>,
    length: int,
) -> Option<CodeGeneratorFault>
    decreases fixups.len() - from,
{
    if from < 0 || from >= fixups.len() {
        None
    } else if !symbols.contains_key(fixups[from].name) {
        Some(CodeGeneratorFault::UnresolvedBranches)
    } else if !within(fixups[from], length) {
        Some(CodeGeneratorFault::InternalError)
    } else {
        blocked(fixups, from + 1, symbols, length)
    }
}

/// Whether the operand of a reference from `from` on that names the local
/// label `name` lies outside an image of the given length.
pub open spec fn blocked_named(
    fixups: Seq<FixupView>,
    from: int,
    name: Seq<char>,
    length: int,
) -> bool
    decreases fixups.len() - from,
{
    if from < 0 || from >= fixups.len() {
        false
    } else if fixups[from].name == name && !within(fixups[from], length) {
        true
    } else {
        blocked_named(fixups, from + 1, name, length)
    }
}

/// Closing the references of a queue fails exactly where one of them is
/// blocked, with the fault of the first such; and it keeps the image as long
/// as it was.
pub proof fn lemma_settle_blocked(
    output: Seq<u8>,
    fixups: Seq<FixupView>,
    from: int,
    symbols: Map<Seq<char>, usize>,
    start: u16,
)
    ensures
        match blocked(fixups, from, symbols, output.len() as int) {
            Some(fault) => settle(output, fixups, from, symbols, start) == Err::<Seq<u8>, CodeGeneratorFault>(
                fault,
            ),
            None => settle(output, fixups, from, symbols, start) matches Ok(written) && written.len()
                == output.len(),
        },
    decreases fixups.len() - from,
{
    if 0 <= from < fixups.len() && symbols.contains_key(fixups[from].name) {
        match patched(output, fixups[from], symbols[fixups[from].name] as int, start) {
            None => {},
            Some(written) => {
                lemma_settle_blocked(written, fixups, from + 1, symbols, start);
            },
        }
    }
}

/// Closing the references to a local label fails exactly where one of them
/// is blocked; and it keeps the image as long as it was.
pub proof fn lemma_settle_named_blocked(
    output: Seq<u8>,
    fixups: Seq<FixupView>,
    from: int,
    name: Seq<char>,
    target: int,
    start: u16,
    kept: Seq<FixupView>,
)
    ensures
        if blocked_named(fixups, from, name, output.len() as int) {
            settle_named(output, fixups, from, name, target, start, kept) == Err::<
                (Seq<u8>, Seq<FixupView>),
                CodeGeneratorFault,
            >(CodeGeneratorFault::InternalError)
        } else {
            settle_named(output, fixups, from, name, target, start, kept) matches Ok((written, _))
                && written.len() == output.len()
        },
    decreases fixups.len() - from,
{
    if 0 <= from < fixups.len() {
        if fixups[from].name != name {
            lemma_settle_named_blocked(output, fixups, from + 1, name, target, start, kept.push(fixups[from]));
        } else {
            match patched(output, fixups[from], target, start) {
                None => {},
                Some(written) => {
                    lemma_settle_named_blocked(written, fixups, from + 1, name, target, start, kept);
                },
            }
        }
    }
}

/// How many bytes the operand of a deferred reference takes.
pub open spec fn width(kind: FixupKind) -> int {
    match kind {
        FixupKind::Relative => 1,
        FixupKind::Absolute => 2,
    }
}

/// Whether the operand of a deferred reference lies within an image of the
/// given length.
pub open spec fn within(fixup: FixupView, length: int) -> bool {
    0 <= fixup.position && fixup.position + width(fixup.kind) <= length
}

/// An instruction whose table lacks the mode that its operand asks for is
/// illegal: the pass stops at its node with that fault, whatever stood in
/// the image before.
pub proof fn lemma_missing_mode_is_illegal(nodes: Seq<AstInfoView>, pos: int, image: Image)
    requires
        0 <= pos < nodes.len(),
        match nodes[pos].ast {
            AstView::Instr(instr, info) => opcode_of(instr, operand_mode(instr, info)) is None,
            AstView::InstrImplied(instr) => opcode_of(instr, ModeType::Implied) is None,
            _ => false,
        },
    ensures
        step(image, pos, nodes[pos].ast) == Err::<Image, CodeGeneratorFault>(
            CodeGeneratorFault::IllegalOpcode,
        ),
        generation(nodes, pos, image).outcome == Err::<Halt, CodeGeneratorFault>(
            CodeGeneratorFault::IllegalOpcode,
        ),
        generation(nodes, pos, image).next == pos + 1,
        generation(nodes, pos, image).image == image,
{
}

/// A storage directive repeats its unit as often as its first value says:
/// the byte directive appends that many bytes, the word directive twice as
/// many, all of them the fill, which is zero where none is given. It takes
/// one or two values and no fill of another kind.
pub proof fn lemma_storage(image: Image, values: Seq<DirectiveValueView>)
    ensures
        (storage_count(values), storage_byte(values)) matches (Some(count), Some(fill)) ==> {
            &&& direct(image, DirectiveEnum::Dsb, values) matches Ok(written) && written.output
                == image.output + filled(count, fill)
            &&& filled(count, fill).len() == count
            &&& forall|i: int| 0 <= i < count ==> #[trigger] filled(count, fill)[i] == fill
        },
        (storage_count(values), storage_word(values)) matches (Some(count), Some(fill)) ==> {
            &&& direct(image, DirectiveEnum::Dsw, values) matches Ok(written) && written.output
                == image.output + filled_words(count, fill as int)
            &&& filled_words(count, fill as int).len() == 2 * count
            &&& forall|i: int|
                0 <= i < count ==> #[trigger] filled_words(count, fill as int)[2 * i] == low_byte(
                    fill as int,
                ) && filled_words(count, fill as int)[2 * i + 1] == high_byte(fill as int)
        },
        values.len() == 1 ==> storage_byte(values) == Some(0u8) && storage_word(values) == Some(0u16),
        values.len() == 0 || values.len() > 2 ==> direct(image, DirectiveEnum::Dsb, values) == Err::<
            Image,
            CodeGeneratorFault,
        >(CodeGeneratorFault::UnsupportedDirectiveValue) && direct(image, DirectiveEnum::Dsw, values) == Err::<
            Image,
            CodeGeneratorFault,
        >(CodeGeneratorFault::UnsupportedDirectiveValue),
{
}

} // verus!
