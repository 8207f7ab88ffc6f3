//! The code generator: semantic nodes in, the binary image out.

use vstd::prelude::*;
use vstd::hash_map::StringHashMap;
use vstd::string::StringExecFns;
use vstd::utf8::encode_utf8;
use crate::ast::{Ast, BranchType, InstrInfo, InstrInfoRegister, InstrValue};
use crate::context::Context;
use crate::directive::{DirectiveEnum, DirectiveValue};
use crate::image::{
    Halt, Image, address, blocked, blocked_named, byte_data, define_label, direct, displacement,
    encode_implied, encode_instr, filled, filled_words, finish, generation, joined,
    lemma_settle_blocked, lemma_settle_named_blocked, message_text, operand_bytes, operand_mode,
    patched, refer, settle, settle_named, storage_count, text_bytes, text_data, within, word_bytes,
    word_data,
};
use crate::opcode::{ModeInfo, ModeType, find_mode, is_branch_instr};
use crate::tool::{hex_notation, hex_text, high_byte, low_byte};

verus! {

/// Why code generation stopped.
#[derive(Debug)]
pub enum CodeGeneratorError {
    UnsupportedDirectiveValue,
    InternalError,
    IllegalOpcode,
    NumberNotApplicable,
    UnresolvedBranches,
    UnresolvedReference,
    StringExpected,
    ExpectedThis(&'static str),
    ProgramFailed(String),
}

/// A `CodeGeneratorError` with its texts as character sequences.
pub enum CodeGeneratorFault {
    UnsupportedDirectiveValue,
    InternalError,
    IllegalOpcode,
    NumberNotApplicable,
    UnresolvedBranches,
    UnresolvedReference,
    StringExpected,
    ExpectedThis(Seq<char>),
    ProgramFailed(Seq<char>),
}

impl View for CodeGeneratorError {
    type V = CodeGeneratorFault;

    open spec fn view(&self) -> CodeGeneratorFault {
        match self {
            CodeGeneratorError::UnsupportedDirectiveValue => CodeGeneratorFault::UnsupportedDirectiveValue,
            CodeGeneratorError::InternalError => CodeGeneratorFault::InternalError,
            CodeGeneratorError::IllegalOpcode => CodeGeneratorFault::IllegalOpcode,
            CodeGeneratorError::NumberNotApplicable => CodeGeneratorFault::NumberNotApplicable,
            CodeGeneratorError::UnresolvedBranches => CodeGeneratorFault::UnresolvedBranches,
            CodeGeneratorError::UnresolvedReference => CodeGeneratorFault::UnresolvedReference,
            CodeGeneratorError::StringExpected => CodeGeneratorFault::StringExpected,
            CodeGeneratorError::ExpectedThis(what) => CodeGeneratorFault::ExpectedThis(what@),
            CodeGeneratorError::ProgramFailed(message) => CodeGeneratorFault::ProgramFailed(message@),
        }
    }
}

/// How a deferred reference is written once its label is known.
#[derive(Debug, PartialEq, Eq, Copy, Clone, Structural)]
pub enum FixupKind {
    /// One byte: the distance from the byte behind it to the label.
    Relative,
    /// Two bytes, low byte first: the address of the label.
    Absolute,
}

/// A reference to a label that was not known when its instruction was
/// written: the label's name, the place of the operand in the image, the
/// node that refers, and how the operand is written.
#[derive(Debug)]
pub struct Fixup {
    pub name: String,
    pub position: usize,
    pub ast_index: usize,
    pub kind: FixupKind,
}

/// A `Fixup` as plain values.
pub struct FixupView {
    pub name: Seq<char>,
    pub position: int,
    pub ast_index: int,
    pub kind: FixupKind,
}

impl View for Fixup {
    type V = FixupView;

    open spec fn view(&self) -> FixupView {
        FixupView {
            name: self.name@,
            position: self.position as int,
            ast_index: self.ast_index as int,
            kind: self.kind,
        }
    }
}

impl DeepView for Fixup {
    type V = FixupView;

    open spec fn deep_view(&self) -> FixupView {
        self@
    }
}

/// Why the code generator handed control back.
#[derive(Debug)]
pub enum CodeStatus {
    /// The image is complete.
    Finished,
    /// The file of this name is to be read and handed to `directive_incbin`;
    /// after that the pass goes on.
    Incbin(String),
}

/// The code generator's cursor over the nodes of a `Context`, its labels and
/// its deferred references.
pub struct CodeGenerator {
    pub index: usize,
    pub size: usize,
    pub silent: bool,
    pub start_point: u16,
    pub fillvalue: u8,
    pub branches: StringHashMap<usize>,
    pub local_branches: StringHashMap<usize>,
    pub unresolved_relative_jump: Vec<Fixup>,
    pub unresolved_absolute_jumps: Vec<Fixup>,
    pub unresolved_local_branches: Vec<Fixup>,
    /// The references to local labels that were still open when their scope
    /// ended; no label can close them any more.
    pub orphaned_local_branches: Vec<Fixup>,
    /// The texts of the warnings that the program asked for, in order.
    pub warnings: Vec<String>,
}

/// Whether the code generator left everything of a context but its image
/// as it was.
pub open spec fn kept_but_target(before: Context, after: Context) -> bool {
    &&& after.tokens == before.tokens
    &&& after.asts == before.asts
    &&& after.references == before.references
    &&& after.files == before.files
    &&& after.work_directory == before.work_directory
    &&& after.silent == before.silent
    &&& after.code_files == before.code_files
}

/// Whether a code generator and a context stand, after a pass from `before`
/// and `context_before`, as `generation` says, with `result` as the pass's
/// outcome.
pub open spec fn generated(
    before: CodeGenerator,
    context_before: Context,
    after: CodeGenerator,
    context_after: Context,
    result: Result<CodeStatus, CodeGeneratorError>,
) -> bool {
    let pass = generation(
        context_before.asts.deep_view(),
        before.index as int,
        before.image(context_before.target@),
    );
    &&& after.index == pass.next
    &&& after.size == context_before.asts@.len()
    &&& after.silent == before.silent
    &&& kept_but_target(context_before, context_after)
    &&& match pass.outcome {
        Ok(Halt::Finished) => {
            &&& result matches Ok(CodeStatus::Finished)
            &&& after.image(context_after.target@) == pass.image
        },
        Ok(Halt::Incbin { name }) => {
            &&& result matches Ok(CodeStatus::Incbin(path))
            &&& path@ == name
            &&& after.image(context_after.target@) == pass.image
        },
        Err(fault) => fault_is(result, fault) && after.image(context_after.target@) == pass.image,
    }
}

/// Whether a result is the error `fault`.
pub open spec fn fault_is<T>(
    result: Result<T, CodeGeneratorError>,
    fault: CodeGeneratorFault,
) -> bool {
    result matches Err(error) && error@ == fault
}

/// Appends the bytes of a slice to a buffer.
pub fn append_bytes(target: &mut Vec<u8>, bytes: &[u8])
    ensures
        final(target)@ == old(target)@ + bytes@,
{
    let mut i: usize = 0;
    while i < bytes.len()
        invariant
            i <= bytes@.len(),
            target@ == old(target)@ + bytes@.take(i as int),
        decreases bytes@.len() - i,
    {
        target.push(bytes[i]);
        i += 1;
        assert(target@ =~= old(target)@ + bytes@.take(i as int));
    }
    assert(bytes@.take(bytes@.len() as int) =~= bytes@);
}

/// The low byte of a number.
pub fn low_byte_of(number: usize) -> (byte: u8)
    ensures
        byte == low_byte(number as int),
{
    (number % 256) as u8
}

/// The second byte of a number.
pub fn high_byte_of(number: usize) -> (byte: u8)
    ensures
        byte == high_byte(number as int),
{
    ((number / 256) % 256) as u8
}

/// The byte of a relative branch from the operand at `position` to `target`.
pub fn displacement_of(target: usize, position: usize) -> (byte: u8)
    ensures
        byte == displacement(target as int, position as int),
{
    if target > position {
        ((target - position - 1) % 256) as u8
    } else {
        let back: usize = (position - target) % 256;
        proof {
            let gap = position - target;
            let times = gap / 256;
            assert(gap == 256 * times + back);
            assert(target - position - 1 == (-times - 1) * 256 + (255 - back));
            vstd::arithmetic::div_mod::lemma_fundamental_div_mod_converse(
                target - position - 1,
                256,
                -times - 1,
                255 - back,
            );
        }
        (255 - back) as u8
    }
}

/// The address of the byte at `offset` in an image that starts at `start`.
pub fn address_of(start: u16, offset: usize) -> (result: usize)
    ensures
        result == address(start, offset as int),
        result < 0x10000,
{
    (start as usize + offset % 0x10000) % 0x10000
}

/// Appends `count` times the byte `fill` to a buffer.
pub fn append_filled(target: &mut Vec<u8>, count: usize, fill: u8)
    ensures
        final(target)@ == old(target)@ + filled(count as int, fill),
{
    let mut i: usize = 0;
    assert(target@ =~= old(target)@ + filled(0, fill));
    while i < count
        invariant
            i <= count,
            target@ == old(target)@ + filled(i as int, fill),
        decreases count - i,
    {
        target.push(fill);
        i += 1;
        assert(target@ =~= old(target)@ + filled(i as int, fill));
    }
}

/// Appends `count` times the word `fill`, low byte first, to a buffer.
pub fn append_filled_words(target: &mut Vec<u8>, count: usize, fill: u16)
    ensures
        final(target)@ == old(target)@ + filled_words(count as int, fill as int),
{
    let mut i: usize = 0;
    assert(target@ =~= old(target)@ + filled_words(0, fill as int));
    while i < count
        invariant
            i <= count,
            target@ == old(target)@ + filled_words(i as int, fill as int),
        decreases count - i,
    {
        target.push(low_byte_of(fill as usize));
        target.push(high_byte_of(fill as usize));
        i += 1;
        assert(target@ =~= old(target)@ + filled_words(i as int, fill as int));
    }
}

impl CodeGenerator {
    /// The image that the generator builds in the buffer `target`, as plain
    /// values.
    pub open spec fn image(&self, target: Seq<u8>) -> Image {
        Image {
            output: target,
            start_point: self.start_point,
            fillvalue: self.fillvalue,
            branches: self.branches@,
            local_branches: self.local_branches@,
            relative: self.unresolved_relative_jump.deep_view(),
            absolute: self.unresolved_absolute_jumps.deep_view(),
            local: self.unresolved_local_branches.deep_view(),
            orphaned: self.orphaned_local_branches.deep_view(),
            warnings: self.warnings.deep_view(),
        }
    }

    /// Whether all but the cursor stands as in `before`.
    pub open spec fn same_but_index(&self, before: &Self) -> bool {
        &&& self.size == before.size
        &&& self.silent == before.silent
        &&& self.start_point == before.start_point
        &&& self.fillvalue == before.fillvalue
        &&& self.branches == before.branches
        &&& self.local_branches == before.local_branches
        &&& self.unresolved_relative_jump == before.unresolved_relative_jump
        &&& self.unresolved_absolute_jumps == before.unresolved_absolute_jumps
        &&& self.unresolved_local_branches == before.unresolved_local_branches
        &&& self.orphaned_local_branches == before.orphaned_local_branches
        &&& self.warnings == before.warnings
    }

    /// Whether the cursor and the switches stand as in `before`.
    pub open spec fn same_cursor(&self, before: &Self) -> bool {
        &&& self.index == before.index
        &&& self.size == before.size
        &&& self.silent == before.silent
    }

    /// Whether the generator and its buffer stand, after a piece of work
    /// from `before` and `target_before`, as `written` says, with `result` as
    /// the outcome.
    pub open spec fn wrote(
        &self,
        target: Seq<u8>,
        before: &Self,
        target_before: Seq<u8>,
        written: Result<Image, CodeGeneratorFault>,
        result: Result<(), CodeGeneratorError>,
    ) -> bool {
        &&& self.same_cursor(before)
        &&& match written {
            Ok(image) => result is Ok && self.image(target) == image,
            Err(fault) => fault_is(result, fault) && self.image(target) == before.image(target_before),
        }
    }

    /// A code generator at the start: no label, no deferred reference, the
    /// image to start at address 0 and to be padded with zero bytes.
    pub fn new() -> (generator: Self)
        ensures
            generator.index == 0,
            generator.size == 0,
            !generator.silent,
            generator.image(Seq::empty()) == (Image {
                output: Seq::empty(),
                start_point: 0,
                fillvalue: 0,
                branches: Map::empty(),
                local_branches: Map::empty(),
                relative: Seq::empty(),
                absolute: Seq::empty(),
                local: Seq::empty(),
                orphaned: Seq::empty(),
                warnings: Seq::empty(),
            }),
    {
        let generator = Self {
            index: 0,
            size: 0,
            silent: false,
            start_point: 0,
            fillvalue: 0x00,
            branches: StringHashMap::new(),
            local_branches: StringHashMap::new(),
            unresolved_local_branches: Vec::new(),
            unresolved_relative_jump: Vec::new(),
            unresolved_absolute_jumps: Vec::new(),
            orphaned_local_branches: Vec::new(),
            warnings: Vec::new(),
        };
        assert(generator.image(Seq::empty()) =~= (Image {
            output: Seq::empty(),
            start_point: 0,
            fillvalue: 0,
            branches: Map::empty(),
            local_branches: Map::empty(),
            relative: Seq::empty(),
            absolute: Seq::empty(),
            local: Seq::empty(),
            orphaned: Seq::empty(),
            warnings: Seq::empty(),
        }));
        generator
    }

    /// Whether a node stands under the cursor.
    fn empty_check(&self) -> (result: Result<(), CodeGeneratorError>)
        ensures
            self.index >= self.size ==> fault_is(result, CodeGeneratorFault::InternalError),
            self.index < self.size ==> result is Ok,
    {
        if self.index >= self.size {
            Err(CodeGeneratorError::InternalError)
        } else {
            Ok(())
        }
    }

    /// Passes over the node under the cursor and hands out its index.
    fn eat(&mut self) -> (result: Result<usize, CodeGeneratorError>)
        ensures
            final(self).same_but_index(old(self)),
            old(self).index >= old(self).size ==> fault_is(result, CodeGeneratorFault::InternalError)
                && final(self).index == old(self).index,
            old(self).index < old(self).size ==> result == Ok::<usize, CodeGeneratorError>(old(self).index)
                && final(self).index == old(self).index + 1,
    {
        self.empty_check()?;
        self.index += 1;
        Ok(self.index - 1)
    }

    /// Appends a number as the operand of a mode.
    fn push_number(
        &self,
        target: &mut Vec<u8>,
        number: u16,
        mode: ModeType,
    ) -> (result: Result<(), CodeGeneratorError>)
        ensures
            match operand_bytes(mode, number as int) {
                Some(bytes) => result is Ok && final(target)@ == old(target)@ + bytes,
                None => fault_is(result, CodeGeneratorFault::NumberNotApplicable) && final(target)@ == old(
                    target,
                )@,
            },
    {
        match mode {
            ModeType::Relative | ModeType::Immediate | ModeType::ZeroPage | ModeType::ZeroPageX
            | ModeType::ZeroPageY | ModeType::IndirectX | ModeType::IndirectY => {
                target.push(low_byte_of(number as usize));
                assert(target@ =~= old(target)@ + seq![low_byte(number as int)]);
            },
            ModeType::Implied => {
                return Err(CodeGeneratorError::NumberNotApplicable);
            },
            ModeType::Accumulator => {
                return Err(CodeGeneratorError::NumberNotApplicable);
            },
            ModeType::Absolute | ModeType::AbsoluteX | ModeType::AbsoluteY | ModeType::Indirect => {
                target.push(low_byte_of(number as usize));
                target.push(high_byte_of(number as usize));
                assert(target@ =~= old(target)@ + word_bytes(number as int));
            },
        }
        Ok(())
    }

    /// The operand byte of a branch to `reference` whose operand stands at
    /// `position`: the distance to the label if it is known; else zero, and
    /// the reference is deferred.
    pub fn build_relative_jump(
        position: usize,
        ast_index: usize,
        reference: &String,
        branches: &StringHashMap<usize>,
        unresolved_jump: &mut Vec<Fixup>,
    ) -> (number: u8)
        ensures
            branches@.contains_key(reference@) ==> number == displacement(
                branches@[reference@] as int,
                position as int,
            ) && final(unresolved_jump).deep_view() == old(unresolved_jump).deep_view(),
            !branches@.contains_key(reference@) ==> number == 0 && final(unresolved_jump).deep_view() == old(
                unresolved_jump,
            ).deep_view().push(
                FixupView {
                    name: reference@,
                    position: position as int,
                    ast_index: ast_index as int,
                    kind: FixupKind::Relative,
                },
            ),
    {
        match branches.get(reference.as_str()) {
            Some(branch_position) => displacement_of(*branch_position, position),
            None => {
                let fixup = Fixup { name: reference.clone(), position, ast_index, kind: FixupKind::Relative };
                unresolved_jump.push(fixup);
                assert(unresolved_jump.deep_view() =~= old(unresolved_jump).deep_view().push(fixup@));
                0
            },
        }
    }

    /// The operand word of a jump to `reference` whose operand stands at
    /// `position`: the address of the label if it is known; else zero, and
    /// the reference is deferred.
    pub fn build_absolute_jump(
        position: usize,
        ast_index: usize,
        reference: &String,
        start_point: u16,
        branches: &StringHashMap<usize>,
        unresolved_jump: &mut Vec<Fixup>,
    ) -> (number: u16)
        ensures
            branches@.contains_key(reference@) ==> number == address(start_point, branches@[reference@] as int)
                && final(unresolved_jump).deep_view() == old(unresolved_jump).deep_view(),
            !branches@.contains_key(reference@) ==> number == 0 && final(unresolved_jump).deep_view() == old(
                unresolved_jump,
            ).deep_view().push(
                FixupView {
                    name: reference@,
                    position: position as int,
                    ast_index: ast_index as int,
                    kind: FixupKind::Absolute,
                },
            ),
    {
        match branches.get(reference.as_str()) {
            Some(branch_position) => address_of(start_point, *branch_position) as u16,
            None => {
                let fixup = Fixup { name: reference.clone(), position, ast_index, kind: FixupKind::Absolute };
                unresolved_jump.push(fixup);
                assert(unresolved_jump.deep_view() =~= old(unresolved_jump).deep_view().push(fixup@));
                0
            },
        }
    }

    /// The addressing mode of an instruction with the operand `value`.
    fn mode_of(instr: usize, value: &InstrInfo) -> (mode: ModeType)
        ensures
            mode == operand_mode(instr as int, value@),
    {
        if is_branch_instr(instr) {
            ModeType::Relative
        } else if value.is_immediate {
            ModeType::Immediate
        } else if value.in_parenthesis {
            match value.register {
                InstrInfoRegister::NoRegister => ModeType::Indirect,
                InstrInfoRegister::X => ModeType::IndirectX,
                InstrInfoRegister::Y => ModeType::IndirectY,
            }
        } else {
            let narrow = match value.value {
                InstrValue::Byte(_) => true,
                _ => false,
            };
            match value.register {
                InstrInfoRegister::NoRegister => if narrow {
                    ModeType::ZeroPage
                } else {
                    ModeType::Absolute
                },
                InstrInfoRegister::X => if narrow {
                    ModeType::ZeroPageX
                } else {
                    ModeType::AbsoluteX
                },
                InstrInfoRegister::Y => if narrow {
                    ModeType::ZeroPageY
                } else {
                    ModeType::AbsoluteY
                },
            }
        }
    }

    /// Appends an instruction whose operand is the label `name`.
    fn generate_reference(
        &mut self,
        target: &mut Vec<u8>,
        ast_index: usize,
        found: ModeInfo,
        name: &String,
        local: bool,
    ) -> (result: Result<(), CodeGeneratorError>)
        ensures
            final(self).wrote(
                final(target)@,
                old(self),
                old(target)@,
                refer(old(self).image(old(target)@), ast_index as int, found.opcode, found.mode, name@, local),
                result,
            ),
    {
        let wide = match found.mode {
            ModeType::Absolute | ModeType::AbsoluteX | ModeType::AbsoluteY | ModeType::Indirect => true,
            _ => false,
        };
        if found.mode != ModeType::Relative && !wide {
            return Err(CodeGeneratorError::UnresolvedReference);
        }
        target.push(found.opcode);
        let position = target.len();
        if found.mode == ModeType::Relative {
            let number = if local {
                Self::build_relative_jump(
                    position,
                    ast_index,
                    name,
                    &self.local_branches,
                    &mut self.unresolved_local_branches,
                )
            } else {
                Self::build_relative_jump(
                    position,
                    ast_index,
                    name,
                    &self.branches,
                    &mut self.unresolved_relative_jump,
                )
            };
            target.push(number);
        } else {
            let number = if local {
                Self::build_absolute_jump(
                    position,
                    ast_index,
                    name,
                    self.start_point,
                    &self.local_branches,
                    &mut self.unresolved_local_branches,
                )
            } else {
                Self::build_absolute_jump(
                    position,
                    ast_index,
                    name,
                    self.start_point,
                    &self.branches,
                    &mut self.unresolved_absolute_jumps,
                )
            };
            target.push(low_byte_of(number as usize));
            target.push(high_byte_of(number as usize));
        }
        proof {
            let goal = refer(
                old(self).image(old(target)@),
                ast_index as int,
                found.opcode,
                found.mode,
                name@,
                local,
            );
            assert(goal is Ok);
            assert(self.image(target@).output =~= goal->Ok_0.output);
            assert(self.image(target@) =~= goal->Ok_0);
        }
        Ok(())
    }

    /// Appends an instruction with its operand.
    pub fn generate_instr(
        &mut self,
        target: &mut Vec<u8>,
        ast_index: usize,
        instr: usize,
        value: &InstrInfo,
    ) -> (result: Result<(), CodeGeneratorError>)
        ensures
            final(self).wrote(
                final(target)@,
                old(self),
                old(target)@,
                encode_instr(old(self).image(old(target)@), ast_index as int, instr as int, value@),
                result,
            ),
    {
        let possible_mode = Self::mode_of(instr, value);
        let found = match find_mode(instr, possible_mode) {
            Some(found) => found,
            None => {
                return Err(CodeGeneratorError::IllegalOpcode);
            },
        };
        match &value.value {
            InstrValue::Byte(byte) => {
                target.push(found.opcode);
                self.push_number(target, *byte as u16, possible_mode)?;
                assert(target@ =~= old(target)@ + (seq![found.opcode] + operand_bytes(
                    possible_mode,
                    *byte as int,
                )->0));
            },
            InstrValue::Word(word) => {
                target.push(found.opcode);
                self.push_number(target, *word, possible_mode)?;
                assert(target@ =~= old(target)@ + (seq![found.opcode] + operand_bytes(
                    possible_mode,
                    *word as int,
                )->0));
            },
            InstrValue::Reference(reference) => {
                return self.generate_reference(target, ast_index, found, reference, false);
            },
            InstrValue::LocalReference(reference) => {
                return self.generate_reference(target, ast_index, found, reference, true);
            },
        }
        Ok(())
    }

    /// Whether the operand of a reference lies within an image of the given
    /// length.
    fn is_within(fixup: &Fixup, length: usize) -> (result: bool)
        ensures
            result == within(fixup@, length as int),
    {
        match fixup.kind {
            FixupKind::Relative => fixup.position < length,
            FixupKind::Absolute => fixup.position < length && length - fixup.position >= 2,
        }
    }

    /// Whether the operand of a reference to the local label `name` lies
    /// outside an image of the given length.
    fn is_blocked_named(fixups: &Vec<Fixup>, name: &String, length: usize) -> (result: bool)
        ensures
            result == blocked_named(fixups.deep_view(), 0, name@, length as int),
    {
        let mut i: usize = 0;
        while i < fixups.len()
            invariant
                i <= fixups@.len(),
                blocked_named(fixups.deep_view(), 0, name@, length as int) == blocked_named(
                    fixups.deep_view(),
                    i as int,
                    name@,
                    length as int,
                ),
            decreases fixups@.len() - i,
        {
            if fixups[i].name == *name && !Self::is_within(&fixups[i], length) {
                return true;
            }
            i += 1;
        }
        false
    }

    /// Tells whether every reference of a queue can be closed in an image of
    /// the given length, or why the first that cannot is blocked.
    fn check_unresolved(
        fixups: &Vec<Fixup>,
        branches: &StringHashMap<usize>,
        length: usize,
    ) -> (result: Result<(), CodeGeneratorError>)
        ensures
            match blocked(fixups.deep_view(), 0, branches@, length as int) {
                Some(fault) => fault_is(result, fault),
                None => result is Ok,
            },
    {
        let mut i: usize = 0;
        while i < fixups.len()
            invariant
                i <= fixups@.len(),
                blocked(fixups.deep_view(), 0, branches@, length as int) == blocked(
                    fixups.deep_view(),
                    i as int,
                    branches@,
                    length as int,
                ),
            decreases fixups@.len() - i,
        {
            if !branches.contains_key(fixups[i].name.as_str()) {
                return Err(CodeGeneratorError::UnresolvedBranches);
            }
            if !Self::is_within(&fixups[i], length) {
                return Err(CodeGeneratorError::InternalError);
            }
            i += 1;
        }
        Ok(())
    }

    /// Writes the operand of a deferred reference for a label at
    /// `branch_position`, if the operand lies within the image.
    fn patch(
        target: &mut Vec<u8>,
        fixup: &Fixup,
        branch_position: usize,
        start_point: u16,
    ) -> (result: Result<(), CodeGeneratorError>)
        ensures
            match patched(old(target)@, fixup@, branch_position as int, start_point) {
                Some(written) => result is Ok && final(target)@ == written,
                None => fault_is(result, CodeGeneratorFault::InternalError),
            },
    {
        match fixup.kind {
            FixupKind::Relative => {
                if fixup.position >= target.len() {
                    return Err(CodeGeneratorError::InternalError);
                }
                target[fixup.position] = displacement_of(branch_position, fixup.position);
            },
            FixupKind::Absolute => {
                if fixup.position >= target.len() || target.len() - fixup.position < 2 {
                    return Err(CodeGeneratorError::InternalError);
                }
                let jump_position = address_of(start_point, branch_position);
                target[fixup.position] = low_byte_of(jump_position);
                target[fixup.position + 1] = high_byte_of(jump_position);
            },
        }
        Ok(())
    }

    /// Writes every deferred reference of a queue, each for the label that
    /// it names.
    fn build_unresolved(
        target: &mut Vec<u8>,
        fixups: &Vec<Fixup>,
        branches: &StringHashMap<usize>,
        start_point: u16,
    ) -> (result: Result<(), CodeGeneratorError>)
        ensures
            match settle(old(target)@, fixups.deep_view(), 0, branches@, start_point) {
                Ok(written) => result is Ok && final(target)@ == written,
                Err(fault) => fault_is(result, fault),
            },
    {
        let mut i: usize = 0;
        while i < fixups.len()
            invariant
                i <= fixups@.len(),
                settle(target@, fixups.deep_view(), i as int, branches@, start_point) == settle(
                    old(target)@,
                    fixups.deep_view(),
                    0,
                    branches@,
                    start_point,
                ),
            decreases fixups@.len() - i,
        {
            let fixup = &fixups[i];
            match branches.get(fixup.name.as_str()) {
                Some(branch_position) => {
                    Self::patch(target, fixup, *branch_position, start_point)?;
                },
                None => {
                    return Err(CodeGeneratorError::UnresolvedBranches);
                },
            }
            i += 1;
        }
        Ok(())
    }

    /// Writes every deferred branch to a global label.
    pub fn build_unresolved_relative_jump(
        &mut self,
        target: &mut Vec<u8>,
    ) -> (result: Result<(), CodeGeneratorError>)
        ensures
            *final(self) == *old(self),
            match settle(
                old(target)@,
                old(self).unresolved_relative_jump.deep_view(),
                0,
                old(self).branches@,
                old(self).start_point,
            ) {
                Ok(written) => result is Ok && final(target)@ == written,
                Err(fault) => fault_is(result, fault),
            },
    {
        Self::build_unresolved(target, &self.unresolved_relative_jump, &self.branches, self.start_point)
    }

    /// Writes every deferred jump to a global label.
    pub fn build_unresolved_jumps(
        &mut self,
        target: &mut Vec<u8>,
    ) -> (result: Result<(), CodeGeneratorError>)
        ensures
            *final(self) == *old(self),
            match settle(
                old(target)@,
                old(self).unresolved_absolute_jumps.deep_view(),
                0,
                old(self).branches@,
                old(self).start_point,
            ) {
                Ok(written) => result is Ok && final(target)@ == written,
                Err(fault) => fault_is(result, fault),
            },
    {
        Self::build_unresolved(target, &self.unresolved_absolute_jumps, &self.branches, self.start_point)
    }

    /// Writes the deferred references to the local label `name`, which
    /// stands at `branch_position`, and takes them out of their queue.
    pub fn build_unresolved_local_branches(
        &mut self,
        target: &mut Vec<u8>,
        name: &String,
        branch_position: usize,
    ) -> (result: Result<(), CodeGeneratorError>)
        ensures
            final(self).same_cursor(old(self)),
            final(self).start_point == old(self).start_point,
            final(self).fillvalue == old(self).fillvalue,
            final(self).branches == old(self).branches,
            final(self).local_branches == old(self).local_branches,
            final(self).unresolved_relative_jump == old(self).unresolved_relative_jump,
            final(self).unresolved_absolute_jumps == old(self).unresolved_absolute_jumps,
            final(self).orphaned_local_branches == old(self).orphaned_local_branches,
            final(self).warnings == old(self).warnings,
            match settle_named(
                old(target)@,
                old(self).unresolved_local_branches.deep_view(),
                0,
                name@,
                branch_position as int,
                old(self).start_point,
                Seq::empty(),
            ) {
                Ok((written, kept)) => {
                    &&& result is Ok
                    &&& final(target)@ == written
                    &&& final(self).unresolved_local_branches.deep_view() == kept
                },
                Err(fault) => {
                    &&& fault_is(result, fault)
                    &&& final(target)@ == old(target)@
                    &&& final(self).unresolved_local_branches == old(self).unresolved_local_branches
                },
            },
    {
        proof {
            lemma_settle_named_blocked(
                target@,
                self.unresolved_local_branches.deep_view(),
                0,
                name@,
                branch_position as int,
                self.start_point,
                Seq::empty(),
            );
        }
        if Self::is_blocked_named(&self.unresolved_local_branches, name, target.len()) {
            return Err(CodeGeneratorError::InternalError);
        }
        let mut kept: Vec<Fixup> = Vec::new();
        let mut i: usize = 0;
        assert(kept.deep_view() =~= Seq::empty());
        while i < self.unresolved_local_branches.len()
            invariant
                *self == *old(self),
                i <= self.unresolved_local_branches@.len(),
                settle_named(
                    old(target)@,
                    old(self).unresolved_local_branches.deep_view(),
                    0,
                    name@,
                    branch_position as int,
                    old(self).start_point,
                    Seq::empty(),
                ) is Ok,
                settle_named(
                    target@,
                    self.unresolved_local_branches.deep_view(),
                    i as int,
                    name@,
                    branch_position as int,
                    self.start_point,
                    kept.deep_view(),
                ) == settle_named(
                    old(target)@,
                    old(self).unresolved_local_branches.deep_view(),
                    0,
                    name@,
                    branch_position as int,
                    old(self).start_point,
                    Seq::empty(),
                ),
            decreases self.unresolved_local_branches@.len() - i,
        {
            let fixup = &self.unresolved_local_branches[i];
            if fixup.name == *name {
                Self::patch(target, fixup, branch_position, self.start_point)?;
            } else {
                let ghost before = kept.deep_view();
                let copy = Fixup {
                    name: fixup.name.clone(),
                    position: fixup.position,
                    ast_index: fixup.ast_index,
                    kind: fixup.kind,
                };
                kept.push(copy);
                assert(kept.deep_view() =~= before.push(fixup@));
            }
            i += 1;
        }
        self.unresolved_local_branches = kept;
        Ok(())
    }

    /// Defines a label at the end of the image.
    fn generate_branch(
        &mut self,
        target: &mut Vec<u8>,
        name: &String,
        branch_type: BranchType,
    ) -> (result: Result<(), CodeGeneratorError>)
        ensures
            final(self).wrote(
                final(target)@,
                old(self),
                old(target)@,
                define_label(old(self).image(old(target)@), name@, branch_type),
                result,
            ),
    {
        match branch_type {
            BranchType::Generic => {
                let ghost orphaned = self.orphaned_local_branches.deep_view();
                let ghost open = self.unresolved_local_branches.deep_view();
                self.branches.insert(name.clone(), target.len());
                self.local_branches.clear();
                self.orphaned_local_branches.append(&mut self.unresolved_local_branches);
                assert(self.orphaned_local_branches.deep_view() =~= orphaned + open);
                assert(self.unresolved_local_branches.deep_view() =~= Seq::empty());
                assert(self.image(target@) =~= define_label(
                    old(self).image(old(target)@),
                    name@,
                    branch_type,
                )->Ok_0);
            },
            BranchType::Local => {
                let position = target.len();
                self.build_unresolved_local_branches(target, name, position)?;
                self.local_branches.insert(name.clone(), position);
                assert(self.image(target@) =~= define_label(
                    old(self).image(old(target)@),
                    name@,
                    branch_type,
                )->Ok_0);
            },
        }
        Ok(())
    }

    /// Sets the address at which the image starts.
    fn directive_org(
        &mut self,
        values: &Vec<DirectiveValue>,
    ) -> (result: Result<(), CodeGeneratorError>)
        ensures
            forall|target: Seq<u8>|
                final(self).wrote(
                    target,
                    old(self),
                    target,
                    #[trigger] direct(old(self).image(target), DirectiveEnum::Org, values.deep_view()),
                    result,
                ),
    {
        if values.len() == 0 {
            return Err(CodeGeneratorError::UnsupportedDirectiveValue);
        }
        self.start_point = values[0].get_word()?;
        assert forall|target: Seq<u8>|
            self.image(target) == (#[trigger] direct(
                old(self).image(target),
                DirectiveEnum::Org,
                values.deep_view(),
            ))->Ok_0 by {
            assert(self.image(target) =~= direct(
                old(self).image(target),
                DirectiveEnum::Org,
                values.deep_view(),
            )->Ok_0);
        }
        Ok(())
    }

    /// Appends the bytes of a file that a directive asked for.
    pub fn directive_incbin(&mut self, target: &mut Vec<u8>, data: &[u8])
        ensures
            *final(self) == *old(self),
            final(target)@ == old(target)@ + data@,
    {
        append_bytes(target, data);
    }

    /// Appends bytes and texts.
    fn directive_byte(
        &mut self,
        target: &mut Vec<u8>,
        values: &Vec<DirectiveValue>,
    ) -> (result: Result<(), CodeGeneratorError>)
        ensures
            final(self).wrote(
                final(target)@,
                old(self),
                old(target)@,
                direct(old(self).image(old(target)@), DirectiveEnum::Byte, values.deep_view()),
                result,
            ),
    {
        let mut data: Vec<u8> = Vec::new();
        let mut i: usize = 0;
        let ghost listed = values.deep_view();
        assert(joined(data@, byte_data(listed, 0)) =~= byte_data(listed, 0));
        while i < values.len()
            invariant
                i <= values@.len(),
                listed == values.deep_view(),
                byte_data(listed, 0) == joined(data@, byte_data(listed, i as int)),
            decreases values@.len() - i,
        {
            let ghost before = data@;
            match &values[i] {
                DirectiveValue::Byte(byte) => {
                    data.push(*byte);
                    assert(joined(data@, byte_data(listed, i + 1)) =~= joined(
                        before,
                        joined(seq![*byte], byte_data(listed, i + 1)),
                    ));
                },
                DirectiveValue::String(string) => {
                    append_bytes(&mut data, string.as_str().as_bytes());
                    assert(joined(data@, byte_data(listed, i + 1)) =~= joined(
                        before,
                        joined(encode_utf8(string@), byte_data(listed, i + 1)),
                    ));
                },
                _ => {
                    return Err(CodeGeneratorError::ExpectedThis("byte or &String"));
                },
            }
            i += 1;
        }
        assert(data@ + Seq::<u8>::empty() =~= data@);
        target.append(&mut data);
        Ok(())
    }

    /// Appends words, low byte first.
    fn directive_word(
        &mut self,
        target: &mut Vec<u8>,
        values: &Vec<DirectiveValue>,
    ) -> (result: Result<(), CodeGeneratorError>)
        ensures
            final(self).wrote(
                final(target)@,
                old(self),
                old(target)@,
                direct(old(self).image(old(target)@), DirectiveEnum::Word, values.deep_view()),
                result,
            ),
    {
        let mut data: Vec<u8> = Vec::new();
        let mut i: usize = 0;
        let ghost listed = values.deep_view();
        assert(joined(data@, word_data(listed, 0)) =~= word_data(listed, 0));
        while i < values.len()
            invariant
                i <= values@.len(),
                listed == values.deep_view(),
                word_data(listed, 0) == joined(data@, word_data(listed, i as int)),
            decreases values@.len() - i,
        {
            let ghost before = data@;
            let word: u16 = match &values[i] {
                DirectiveValue::Byte(byte) => *byte as u16,
                DirectiveValue::Word(word) => *word,
                _ => {
                    return Err(CodeGeneratorError::ExpectedThis("word"));
                },
            };
            data.push(low_byte_of(word as usize));
            data.push(high_byte_of(word as usize));
            assert(joined(data@, word_data(listed, i + 1)) =~= joined(
                before,
                joined(word_bytes(word as int), word_data(listed, i + 1)),
            ));
            i += 1;
        }
        assert(data@ + Seq::<u8>::empty() =~= data@);
        target.append(&mut data);
        Ok(())
    }

    /// Appends texts, each with a zero byte behind it where `add_null` asks
    /// for one and the text does not end in one.
    fn directive_ascii(
        &mut self,
        target: &mut Vec<u8>,
        values: &Vec<DirectiveValue>,
        add_null: bool,
    ) -> (result: Result<(), CodeGeneratorError>)
        ensures
            final(self).wrote(
                final(target)@,
                old(self),
                old(target)@,
                direct(
                    old(self).image(old(target)@),
                    if add_null {
                        DirectiveEnum::Asciiz
                    } else {
                        DirectiveEnum::Ascii
                    },
                    values.deep_view(),
                ),
                result,
            ),
    {
        let mut data: Vec<u8> = Vec::new();
        let mut i: usize = 0;
        let ghost listed = values.deep_view();
        assert(joined(data@, text_data(listed, 0, add_null)) =~= text_data(listed, 0, add_null));
        while i < values.len()
            invariant
                i <= values@.len(),
                listed == values.deep_view(),
                text_data(listed, 0, add_null) == joined(data@, text_data(listed, i as int, add_null)),
            decreases values@.len() - i,
        {
            let ghost before = data@;
            let string = match &values[i] {
                DirectiveValue::String(string) => string,
                _ => {
                    return Err(CodeGeneratorError::ExpectedThis("string"));
                },
            };
            let bytes = string.as_str().as_bytes();
            append_bytes(&mut data, bytes);
            if add_null && (bytes.len() == 0 || bytes[bytes.len() - 1] != 0) {
                data.push(0);
            }
            assert(data@ =~= before + text_bytes(string@, add_null));
            assert(joined(data@, text_data(listed, i + 1, add_null)) =~= joined(
                before,
                joined(text_bytes(string@, add_null), text_data(listed, i + 1, add_null)),
            ));
            i += 1;
        }
        assert(data@ + Seq::<u8>::empty() =~= data@);
        target.append(&mut data);
        Ok(())
    }

    /// Spells the message of a diagnostic.
    fn message_of(values: &Vec<DirectiveValue>) -> (result: Result<String, CodeGeneratorError>)
        ensures
            match message_text(values.deep_view(), 0) {
                Some(text) => result matches Ok(message) && message@ == text,
                None => fault_is(result, CodeGeneratorFault::ExpectedThis("string"@)),
            },
    {
        let mut message = String::new();
        let mut i: usize = 0;
        let ghost listed = values.deep_view();
        assert(joined(message@, message_text(listed, 0)) =~= message_text(listed, 0));
        while i < values.len()
            invariant
                i <= values@.len(),
                listed == values.deep_view(),
                message_text(listed, 0) == joined(message@, message_text(listed, i as int)),
            decreases values@.len() - i,
        {
            let ghost before = message@;
            match &values[i] {
                DirectiveValue::String(string) => {
                    message.append(string.as_str());
                    assert(joined(message@, message_text(listed, i + 1)) =~= joined(
                        before,
                        joined(string@, message_text(listed, i + 1)),
                    ));
                },
                DirectiveValue::Word(word) => {
                    message.append(hex_text(*word as usize).as_str());
                    assert(joined(message@, message_text(listed, i + 1)) =~= joined(
                        before,
                        joined(hex_notation(*word as nat), message_text(listed, i + 1)),
                    ));
                },
                DirectiveValue::Byte(byte) => {
                    message.append(hex_text(*byte as usize).as_str());
                    assert(joined(message@, message_text(listed, i + 1)) =~= joined(
                        before,
                        joined(hex_notation(*byte as nat), message_text(listed, i + 1)),
                    ));
                },
                _ => {
                    return Err(CodeGeneratorError::ExpectedThis("string"));
                },
            }
            i += 1;
        }
        assert(message@ + Seq::<char>::empty() =~= message@);
        Ok(message)
    }

    /// Notes a warning that the program asked for.
    fn directive_warning(
        &mut self,
        values: &Vec<DirectiveValue>,
    ) -> (result: Result<(), CodeGeneratorError>)
        ensures
            forall|target: Seq<u8>|
                final(self).wrote(
                    target,
                    old(self),
                    target,
                    #[trigger] direct(old(self).image(target), DirectiveEnum::Warning, values.deep_view()),
                    result,
                ),
    {
        let message = Self::message_of(values)?;
        let ghost before = self.warnings.deep_view();
        self.warnings.push(message);
        assert(self.warnings.deep_view() =~= before.push(message@));
        assert forall|target: Seq<u8>|
            self.image(target) == (#[trigger] direct(
                old(self).image(target),
                DirectiveEnum::Warning,
                values.deep_view(),
            ))->Ok_0 by {
            assert(self.image(target) =~= direct(
                old(self).image(target),
                DirectiveEnum::Warning,
                values.deep_view(),
            )->Ok_0);
        }
        Ok(())
    }

    /// Stops the pass with the message that the program asked for.
    fn directive_fail(
        &mut self,
        values: &Vec<DirectiveValue>,
    ) -> (result: Result<(), CodeGeneratorError>)
        ensures
            forall|target: Seq<u8>|
                final(self).wrote(
                    target,
                    old(self),
                    target,
                    #[trigger] direct(old(self).image(target), DirectiveEnum::Fail, values.deep_view()),
                    result,
                ),
    {
        let message = Self::message_of(values)?;
        Err(CodeGeneratorError::ProgramFailed(message))
    }

    /// Pads the image with the fill byte up to a length.
    fn directive_pad(
        &mut self,
        target: &mut Vec<u8>,
        values: &Vec<DirectiveValue>,
    ) -> (result: Result<(), CodeGeneratorError>)
        ensures
            final(self).wrote(
                final(target)@,
                old(self),
                old(target)@,
                direct(old(self).image(old(target)@), DirectiveEnum::Pad, values.deep_view()),
                result,
            ),
    {
        if values.len() == 0 {
            return Err(CodeGeneratorError::UnsupportedDirectiveValue);
        }
        let address = match &values[0] {
            DirectiveValue::Word(address) => *address,
            _ => {
                return Err(CodeGeneratorError::ExpectedThis("word"));
            },
        };
        if address as usize > target.len() {
            append_filled(target, address as usize - target.len(), self.fillvalue);
        }
        Ok(())
    }

    /// Sets the byte with which the image is padded.
    fn directive_fillvalue(
        &mut self,
        values: &Vec<DirectiveValue>,
    ) -> (result: Result<(), CodeGeneratorError>)
        ensures
            forall|target: Seq<u8>|
                final(self).wrote(
                    target,
                    old(self),
                    target,
                    #[trigger] direct(old(self).image(target), DirectiveEnum::Fillvalue, values.deep_view()),
                    result,
                ),
    {
        if values.len() == 0 {
            return Err(CodeGeneratorError::UnsupportedDirectiveValue);
        }
        self.fillvalue = values[0].get_byte()?;
        assert forall|target: Seq<u8>|
            self.image(target) == (#[trigger] direct(
                old(self).image(target),
                DirectiveEnum::Fillvalue,
                values.deep_view(),
            ))->Ok_0 by {
            assert(self.image(target) =~= direct(
                old(self).image(target),
                DirectiveEnum::Fillvalue,
                values.deep_view(),
            )->Ok_0);
        }
        Ok(())
    }

    /// How often a storage directive repeats its unit.
    fn storage_times(values: &Vec<DirectiveValue>) -> (result: Result<usize, CodeGeneratorError>)
        ensures
            match storage_count(values.deep_view()) {
                Some(count) => result == Ok::<usize, CodeGeneratorError>(count as usize) && count <= 0xFFFF,
                None => fault_is(result, CodeGeneratorFault::UnsupportedDirectiveValue),
            },
    {
        if values.len() == 0 || values.len() > 2 {
            return Err(CodeGeneratorError::UnsupportedDirectiveValue);
        }
        match &values[0] {
            DirectiveValue::Byte(byte) => Ok(*byte as usize),
            DirectiveValue::Word(word) => Ok(*word as usize),
            _ => Err(CodeGeneratorError::UnsupportedDirectiveValue),
        }
    }

    /// Appends a run of one byte.
    fn directive_define_storage_byte(
        &self,
        target: &mut Vec<u8>,
        values: &Vec<DirectiveValue>,
    ) -> (result: Result<(), CodeGeneratorError>)
        ensures
            match direct(self.image(old(target)@), DirectiveEnum::Dsb, values.deep_view()) {
                Ok(image) => result is Ok && self.image(final(target)@) == image,
                Err(fault) => fault_is(result, fault) && final(target)@ == old(target)@,
            },
    {
        let mut filler: u8 = 0x00;
        let times = Self::storage_times(values)?;
        if values.len() > 1 {
            match values[1].get_byte() {
                Ok(new_filler) => {
                    filler = new_filler;
                },
                Err(_) => {
                    return Err(CodeGeneratorError::UnsupportedDirectiveValue);
                },
            }
        }
        append_filled(target, times, filler);
        Ok(())
    }

    /// Appends a run of one word.
    fn directive_define_storage_word(
        &self,
        target: &mut Vec<u8>,
        values: &Vec<DirectiveValue>,
    ) -> (result: Result<(), CodeGeneratorError>)
        ensures
            match direct(self.image(old(target)@), DirectiveEnum::Dsw, values.deep_view()) {
                Ok(image) => result is Ok && self.image(final(target)@) == image,
                Err(fault) => fault_is(result, fault) && final(target)@ == old(target)@,
            },
    {
        let mut filler: u16 = 0x00;
        let times = Self::storage_times(values)?;
        if values.len() > 1 {
            filler = match &values[1] {
                DirectiveValue::Word(word) => *word,
                DirectiveValue::Byte(byte) => *byte as u16,
                _ => {
                    return Err(CodeGeneratorError::UnsupportedDirectiveValue);
                },
            };
        }
        append_filled_words(target, times, filler);
        Ok(())
    }

    /// Does what a directive asks for, but for the appending of a file.
    fn generate_directive(
        &mut self,
        target: &mut Vec<u8>,
        option: DirectiveEnum,
        values: &Vec<DirectiveValue>,
    ) -> (result: Result<(), CodeGeneratorError>)
        ensures
            final(self).wrote(
                final(target)@,
                old(self),
                old(target)@,
                direct(old(self).image(old(target)@), option, values.deep_view()),
                result,
            ),
    {
        match option {
            DirectiveEnum::Org => self.directive_org(values)?,
            DirectiveEnum::Incbin => (),
            DirectiveEnum::Byte => self.directive_byte(target, values)?,
            DirectiveEnum::Word => self.directive_word(target, values)?,
            DirectiveEnum::Ascii => self.directive_ascii(target, values, false)?,
            DirectiveEnum::Asciiz => self.directive_ascii(target, values, true)?,
            DirectiveEnum::Warning => self.directive_warning(values)?,
            DirectiveEnum::Fail => self.directive_fail(values)?,
            DirectiveEnum::Include => (),
            DirectiveEnum::Pad => self.directive_pad(target, values)?,
            DirectiveEnum::Fillvalue => self.directive_fillvalue(values)?,
            DirectiveEnum::Dsb => self.directive_define_storage_byte(target, values)?,
            DirectiveEnum::Dsw => self.directive_define_storage_word(target, values)?,
        }
        Ok(())
    }

    /// Closes the deferred references behind the last node.
    fn finalize(&mut self, target: &mut Vec<u8>) -> (result: Result<(), CodeGeneratorError>)
        ensures
            *final(self) == *old(self),
            match finish(old(self).image(old(target)@)) {
                Ok(output) => result is Ok && final(target)@ == output,
                Err(fault) => fault_is(result, fault) && final(target)@ == old(target)@,
            },
    {
        proof {
            lemma_settle_blocked(
                target@,
                self.unresolved_relative_jump.deep_view(),
                0,
                self.branches@,
                self.start_point,
            );
            if blocked(self.unresolved_relative_jump.deep_view(), 0, self.branches@, target@.len() as int)
                is None {
                lemma_settle_blocked(
                    settle(
                        target@,
                        self.unresolved_relative_jump.deep_view(),
                        0,
                        self.branches@,
                        self.start_point,
                    )->Ok_0,
                    self.unresolved_absolute_jumps.deep_view(),
                    0,
                    self.branches@,
                    self.start_point,
                );
            }
        }
        Self::check_unresolved(&self.unresolved_relative_jump, &self.branches, target.len())?;
        Self::check_unresolved(&self.unresolved_absolute_jumps, &self.branches, target.len())?;
        if self.unresolved_local_branches.len() > 0 || self.orphaned_local_branches.len() > 0 {
            return Err(CodeGeneratorError::UnresolvedBranches);
        }
        self.build_unresolved_relative_jump(target)?;
        self.build_unresolved_jumps(target)?;
        Ok(())
    }

    /// Writes node after node from the cursor on, and closes the deferred references at the end.
    fn inner_generate(
        &mut self,
        context: &mut Context,
    ) -> (result: Result<CodeStatus, CodeGeneratorError>)
        ensures
            generated(*old(self), *old(context), *final(self), *final(context), result),
    {
        self.size = context.asts.len();
        let ghost nodes = context.asts.deep_view();
        let ghost goal = generation(nodes, old(self).index as int, old(self).image(old(context).target@));

        while self.size > self.index
            invariant
                self.size == context.asts@.len(),
                self.silent == old(self).silent,
                nodes == context.asts.deep_view(),
                kept_but_target(*old(context), *context),
                goal == generation(nodes, old(self).index as int, old(self).image(old(context).target@)),
                goal == generation(nodes, self.index as int, self.image(context.target@)),
            decreases self.size - self.index,
        {
            let ast_index = self.eat()?;
            match &context.asts[ast_index].ast {
                Ast::InstrImplied(position) => {
                    self.generate_implied(&mut context.target, *position)?;
                },
                Ast::Instr(position, value) => {
                    self.generate_instr(&mut context.target, ast_index, *position, value)?;
                },
                Ast::Branch(name, branch_type) => {
                    self.generate_branch(&mut context.target, name, *branch_type)?;
                },
                Ast::Directive(option, values) => {
                    if *option == DirectiveEnum::Incbin {
                        if values.len() > 0 {
                            if let DirectiveValue::String(name) = &values[0] {
                                return Ok(CodeStatus::Incbin(name.clone()));
                            }
                        }
                        return Err(CodeGeneratorError::StringExpected);
                    }
                    self.generate_directive(&mut context.target, *option, values)?;
                },
            }
        }
        self.finalize(&mut context.target)?;
        proof {
            assert(self.image(context.target@) =~= goal.image);
        }
        Ok(CodeStatus::Finished)
    }

    /// Runs the code generator over the nodes of `context` from the cursor
    /// on. It ends behind the last node, where the deferred references are
    /// closed; at the first fault; or at the first directive that asks to
    /// append a file: once `directive_incbin` has been given its bytes,
    /// another call goes on where this one stopped.
    pub fn generate(
        &mut self,
        context: &mut Context,
    ) -> (result: Result<CodeStatus, CodeGeneratorError>)
        ensures
            generated(*old(self), *old(context), *final(self), *final(context), result),
    {
        self.inner_generate(context)
    }

    /// Appends an instruction without operand.
    pub fn generate_implied(
        &mut self,
        target: &mut Vec<u8>,
        position: usize,
    ) -> (result: Result<(), CodeGeneratorError>)
        ensures
            final(self).wrote(
                final(target)@,
                old(self),
                old(target)@,
                encode_implied(old(self).image(old(target)@), position as int),
                result,
            ),
    {
        match find_mode(position, ModeType::Implied) {
            Some(found) => {
                target.push(found.opcode);
                assert(target@ =~= old(target)@ + seq![found.opcode]);
                Ok(())
            },
            None => Err(CodeGeneratorError::IllegalOpcode),
        }
    }
}

} // verus!
