//! What holds of references to labels: when they are written at once, when
//! they wait, and that every pass that ends well has closed them rightly.

use vstd::prelude::*;
use crate::ast::{AstInfoView, AstView, BranchType, InstrInfoView, InstrValueView};
use crate::code_gen::{CodeGeneratorFault, FixupKind, FixupView};
use crate::directive::{DirectiveEnum, DirectiveValueView};
use crate::image::{
    Halt, Image, address, binary_asked, deferred, define_label, direct, displacement, encode_instr,
    extended, generation, operand_bytes, operand_mode, patched, refer, settle, settle_named, step,
    width, within, word_bytes,
};
use crate::opcode::{ModeType, is_branch, is_wide, opcode_of};
use crate::tool::{high_byte, low_byte};

verus! {

/// A branch to a label that is known is written at once: behind the opcode
/// stands the distance from the byte after the instruction to the label.
pub proof fn lemma_backward_branch(
    image: Image,
    ast_index: int,
    instr: int,
    info: InstrInfoView,
    name: Seq<char>,
)
    requires
        is_branch(instr),
        opcode_of(instr, ModeType::Relative) is Some,
        info.value == InstrValueView::Reference(name),
        image.branches.contains_key(name),
    ensures
        encode_instr(image, ast_index, instr, info) == Ok::<Image, CodeGeneratorFault>(
            extended(
                image,
                seq![
                    opcode_of(instr, ModeType::Relative)->0,
                    displacement(image.branches[name] as int, image.output.len() as int + 1),
                ],
            ),
        ),
        displacement(image.branches[name] as int, image.output.len() as int + 1) as int == (image.branches[name] - (
        image.output.len() + 2)) % 256,
{
}

/// A branch to a label that is not known yet does not fail: a zero byte
/// holds the operand's place, and the reference waits in the queue of the
/// relative ones for the end of the pass.
pub proof fn lemma_forward_branch_is_deferred(
    image: Image,
    ast_index: int,
    instr: int,
    info: InstrInfoView,
    name: Seq<char>,
)
    requires
        is_branch(instr),
        opcode_of(instr, ModeType::Relative) is Some,
        info.value == InstrValueView::Reference(name),
        !image.branches.contains_key(name),
    ensures
        encode_instr(image, ast_index, instr, info) == Ok::<Image, CodeGeneratorFault>(
            deferred(
                extended(image, seq![opcode_of(instr, ModeType::Relative)->0, 0u8]),
                FixupView {
                    name,
                    position: image.output.len() as int + 1,
                    ast_index,
                    kind: FixupKind::Relative,
                },
                false,
            ),
        ),
{
}

/// The deferred references can be closed only if every label that they
/// name is known: one that names no label leaves the pass unresolved at
/// its end.
pub proof fn lemma_settle_needs_labels(
    output: Seq<u8>,
    fixups: Seq<FixupView>,
    from: int,
    symbols: Map<Seq<char>, usize>,
    start: u16,
)
    requires
        0 <= from,
    ensures
        settle(output, fixups, from, symbols, start) is Ok ==> forall|i: int|
            from <= i < fixups.len() ==> symbols.contains_key(#[trigger] fixups[i].name),
        (forall|i: int|
            from <= i < fixups.len() ==> patched(
                output,
                #[trigger] fixups[i],
                0,
                start,
            ) is Some) && (exists|i: int|
            from <= i < fixups.len() && !symbols.contains_key(#[trigger] fixups[i].name)) ==> settle(
            output,
            fixups,
            from,
            symbols,
            start,
        ) == Err::<Seq<u8>, CodeGeneratorFault>(CodeGeneratorFault::UnresolvedBranches),
    decreases fixups.len() - from,
{
    if from < fixups.len() && symbols.contains_key(fixups[from].name) {
        match patched(output, fixups[from], symbols[fixups[from].name] as int, start) {
            None => {
                assert(patched(output, fixups[from], 0, start) is None);
            },
            Some(written) => {
                lemma_settle_needs_labels(written, fixups, from + 1, symbols, start);
                assert(written.len() == output.len());
                if (forall|i: int|
                    from <= i < fixups.len() ==> patched(output, #[trigger] fixups[i], 0, start) is Some) {
                    assert forall|i: int| from + 1 <= i < fixups.len() implies patched(
                        written,
                        #[trigger] fixups[i],
                        0,
                        start,
                    ) is Some by {
                        assert(patched(output, fixups[i], 0, start) is Some);
                    }
                }
            },
        }
    }
}

/// A pass in which a reference to a local label was still open when its
/// scope ended cannot end well.
pub proof fn lemma_orphans_fail(nodes: Seq<AstInfoView>, pos: int, image: Image)
    requires
        image.orphaned.len() > 0,
    ensures
        generation(nodes, pos, image).outcome != Ok::<Halt, CodeGeneratorFault>(Halt::Finished),
    decreases nodes.len() - pos,
{
    if 0 <= pos < nodes.len() {
        if binary_asked(nodes[pos].ast) is None {
            match step(image, pos, nodes[pos].ast) {
                Ok(written) => {
                    lemma_step_keeps_orphans(image, pos, nodes[pos].ast);
                    lemma_orphans_fail(nodes, pos + 1, written);
                },
                Err(_) => {},
            }
        }
    }
}

/// No node takes a reference out of the orphaned ones.
pub proof fn lemma_step_keeps_orphans(image: Image, ast_index: int, node: AstView)
    ensures
        step(image, ast_index, node) matches Ok(written) ==> written.orphaned.len() >= image.orphaned.len(),
{
}

/// A global label opens a scope in which no local label is known and no
/// reference to one is open: a local label defined behind it, whatever its
/// name, stands for its own place and no other.
pub proof fn lemma_global_label_opens_scope(
    image: Image,
    name: Seq<char>,
    local: Seq<char>,
    bytes: Seq<u8>,
)
    ensures
        define_label(image, name, BranchType::Generic) is Ok,
        define_label(image, name, BranchType::Generic)->Ok_0.local_branches == Map::<Seq<char>, usize>::empty(),
        define_label(image, name, BranchType::Generic)->Ok_0.local == Seq::<FixupView>::empty(),
        define_label(image, name, BranchType::Generic)->Ok_0.output == image.output,
        define_label(
            extended(define_label(image, name, BranchType::Generic)->Ok_0, bytes),
            local,
            BranchType::Local,
        ) matches Ok(scoped) && scoped.output == image.output + bytes && scoped.local_branches
            == Map::<Seq<char>, usize>::empty().insert(local, (image.output + bytes).len() as usize),
{
}

/// A reference to a local label that is open when a global label ends its
/// scope makes the pass fail, whatever follows: a local label of the same
/// name in a later scope does not close it.
pub proof fn lemma_local_reference_ends_with_scope(nodes: Seq<AstInfoView>, pos: int, image: Image)
    requires
        0 <= pos < nodes.len(),
        image.local.len() > 0,
        nodes[pos].ast matches AstView::Branch(_, BranchType::Generic),
    ensures
        generation(nodes, pos, image).outcome != Ok::<Halt, CodeGeneratorFault>(Halt::Finished),
{
    match step(image, pos, nodes[pos].ast) {
        Ok(written) => {
            lemma_orphans_fail(nodes, pos + 1, written);
        },
        Err(_) => {},
    }
}

/// Whether the operands of two deferred references share no byte.
pub open spec fn apart(one: FixupView, other: FixupView) -> bool {
    one.position + width(one.kind) <= other.position || other.position + width(other.kind) <= one.position
}

/// Whether every reference of a queue, but the one at `but`, is apart from
/// `fixup`.
pub open spec fn all_apart(fixups: Seq<FixupView>, fixup: FixupView, but: int) -> bool {
    forall|i: int| 0 <= i < fixups.len() && i != but ==> apart(#[trigger] fixups[i], fixup)
}

/// Whether every reference of a queue lies within an image of the given
/// length.
pub open spec fn all_within(fixups: Seq<FixupView>, length: int) -> bool {
    forall|i: int| 0 <= i < fixups.len() ==> within(#[trigger] fixups[i], length)
}

/// Whether every open reference of an image lies within it. The image of a
/// new code generator is tidy, and every node keeps it so.
pub open spec fn tidy(image: Image) -> bool {
    &&& all_within(image.relative, image.output.len() as int)
    &&& all_within(image.absolute, image.output.len() as int)
    &&& all_within(image.local, image.output.len() as int)
}

/// Whether the reference `fixup` to a global label waits at index `k` of the
/// queue of its kind, with its operand within the image and apart from
/// that of every other open reference.
pub open spec fn waits(image: Image, fixup: FixupView, k: int) -> bool {
    &&& within(fixup, image.output.len() as int)
    &&& all_apart(image.local, fixup, -1)
    &&& match fixup.kind {
        FixupKind::Relative => {
            &&& 0 <= k < image.relative.len()
            &&& image.relative[k] == fixup
            &&& all_apart(image.relative, fixup, k)
            &&& all_apart(image.absolute, fixup, -1)
        },
        FixupKind::Absolute => {
            &&& 0 <= k < image.absolute.len()
            &&& image.absolute[k] == fixup
            &&& all_apart(image.absolute, fixup, k)
            &&& all_apart(image.relative, fixup, -1)
        },
    }
}

/// Whether two images hold the same bytes where the operand of `fixup`
/// stands.
pub open spec fn same_operand(one: Seq<u8>, other: Seq<u8>, fixup: FixupView) -> bool {
    forall|place: int|
        fixup.position <= place < fixup.position + width(fixup.kind) ==> #[trigger] one[place] == other[place]
}

/// Whether an image holds, where the operand of `fixup` stands, what
/// closing the reference for a label at `target` writes there.
pub open spec fn closed(output: Seq<u8>, fixup: FixupView, target: int, start: u16) -> bool {
    match fixup.kind {
        FixupKind::Relative => output[fixup.position] == displacement(target, fixup.position),
        FixupKind::Absolute => output[fixup.position] == low_byte(address(start, target)) && output[fixup.position
            + 1] == high_byte(address(start, target)),
    }
}

/// Closing the references of a queue that are apart from `fixup` leaves the
/// operand of `fixup` as it was, and the image as long as it was.
pub proof fn lemma_settle_keeps(
    output: Seq<u8>,
    fixups: Seq<FixupView>,
    from: int,
    symbols: Map<Seq<char>, usize>,
    start: u16,
    fixup: FixupView,
)
    requires
        0 <= from,
        within(fixup, output.len() as int),
        forall|i: int| from <= i < fixups.len() ==> apart(#[trigger] fixups[i], fixup),
    ensures
        settle(output, fixups, from, symbols, start) matches Ok(written) ==> written.len() == output.len()
            && same_operand(written, output, fixup),
    decreases fixups.len() - from,
{
    if from < fixups.len() && symbols.contains_key(fixups[from].name) {
        match patched(output, fixups[from], symbols[fixups[from].name] as int, start) {
            None => {},
            Some(written) => {
                assert(apart(fixups[from], fixup));
                lemma_settle_keeps(written, fixups, from + 1, symbols, start, fixup);
            },
        }
    }
}

/// Closing the references of a queue closes the one at `k`, if all behind
/// it are apart from it.
pub proof fn lemma_settle_closes(
    output: Seq<u8>,
    fixups: Seq<FixupView>,
    from: int,
    symbols: Map<Seq<char>, usize>,
    start: u16,
    k: int,
)
    requires
        0 <= from <= k < fixups.len(),
        within(fixups[k], output.len() as int),
        forall|i: int| from <= i < fixups.len() && i != k ==> apart(#[trigger] fixups[i], fixups[k]),
    ensures
        settle(output, fixups, from, symbols, start) matches Ok(written) ==> written.len() == output.len()
            && symbols.contains_key(fixups[k].name) && closed(
            written,
            fixups[k],
            symbols[fixups[k].name] as int,
            start,
        ),
    decreases fixups.len() - from,
{
    if symbols.contains_key(fixups[from].name) {
        match patched(output, fixups[from], symbols[fixups[from].name] as int, start) {
            None => {},
            Some(written) => {
                if from == k {
                    lemma_settle_keeps(written, fixups, from + 1, symbols, start, fixups[k]);
                    match settle(written, fixups, from + 1, symbols, start) {
                        Ok(done) => {
                            assert(same_operand(done, written, fixups[k]));
                            assert(done[fixups[k].position] == written[fixups[k].position]);
                            if fixups[k].kind == FixupKind::Absolute {
                                assert(done[fixups[k].position + 1] == written[fixups[k].position + 1]);
                            }
                        },
                        Err(_) => {},
                    }
                } else {
                    assert(apart(fixups[from], fixups[k]));
                    lemma_settle_closes(written, fixups, from + 1, symbols, start, k);
                }
            },
        }
    }
}

/// Closing the references to a local label that are apart from `fixup`
/// leaves the operand of `fixup` as it was and the image as long as it was,
/// and keeps only references that are apart from `fixup` and lie within the
/// image.
pub proof fn lemma_settle_named_keeps(
    output: Seq<u8>,
    fixups: Seq<FixupView>,
    from: int,
    name: Seq<char>,
    target: int,
    start: u16,
    kept: Seq<FixupView>,
    fixup: FixupView,
)
    requires
        0 <= from,
        within(fixup, output.len() as int),
        forall|i: int| from <= i < fixups.len() ==> apart(#[trigger] fixups[i], fixup),
        all_apart(kept, fixup, -1),
    ensures
        settle_named(output, fixups, from, name, target, start, kept) matches Ok((written, left)) ==> {
            &&& written.len() == output.len()
            &&& same_operand(written, output, fixup)
            &&& all_apart(left, fixup, -1)
        },
    decreases fixups.len() - from,
{
    if from < fixups.len() {
        assert(apart(fixups[from], fixup));
        if fixups[from].name != name {
            let more = kept.push(fixups[from]);
            assert forall|i: int| 0 <= i < more.len() implies apart(#[trigger] more[i], fixup) by {
                if i < kept.len() {
                    assert(apart(kept[i], fixup));
                }
            }
            lemma_settle_named_keeps(output, fixups, from + 1, name, target, start, more, fixup);
        } else {
            match patched(output, fixups[from], target, start) {
                None => {},
                Some(written) => {
                    lemma_settle_named_keeps(written, fixups, from + 1, name, target, start, kept, fixup);
                },
            }
        }
    }
}

/// Closing the references to a local label keeps the image as long as it
/// was, and keeps only references that lie within it.
pub proof fn lemma_settle_named_tidy(
    output: Seq<u8>,
    fixups: Seq<FixupView>,
    from: int,
    name: Seq<char>,
    target: int,
    start: u16,
    kept: Seq<FixupView>,
)
    requires
        0 <= from,
        all_within(fixups, output.len() as int),
        all_within(kept, output.len() as int),
    ensures
        settle_named(output, fixups, from, name, target, start, kept) matches Ok((written, left)) ==> {
            &&& written.len() == output.len()
            &&& all_within(left, output.len() as int)
        },
    decreases fixups.len() - from,
{
    if from < fixups.len() {
        assert(within(fixups[from], output.len() as int));
        if fixups[from].name != name {
            let more = kept.push(fixups[from]);
            assert forall|i: int| 0 <= i < more.len() implies within(#[trigger] more[i], output.len() as int) by {
                if i < kept.len() {
                    assert(within(kept[i], output.len() as int));
                }
            }
            lemma_settle_named_tidy(output, fixups, from + 1, name, target, start, more);
        } else {
            match patched(output, fixups[from], target, start) {
                None => {},
                Some(written) => {
                    lemma_settle_named_tidy(written, fixups, from + 1, name, target, start, kept);
                },
            }
        }
    }
}

/// A tidy image with bytes appended is tidy.
pub proof fn lemma_extended_is_tidy(image: Image, bytes: Seq<u8>)
    requires
        tidy(image),
    ensures
        tidy(extended(image, bytes)),
{
    let longer = extended(image, bytes);
    assert forall|i: int| 0 <= i < longer.relative.len() implies within(
        #[trigger] longer.relative[i],
        longer.output.len() as int,
    ) by {
        assert(within(image.relative[i], image.output.len() as int));
    }
    assert forall|i: int| 0 <= i < longer.absolute.len() implies within(
        #[trigger] longer.absolute[i],
        longer.output.len() as int,
    ) by {
        assert(within(image.absolute[i], image.output.len() as int));
    }
    assert forall|i: int| 0 <= i < longer.local.len() implies within(
        #[trigger] longer.local[i],
        longer.output.len() as int,
    ) by {
        assert(within(image.local[i], image.output.len() as int));
    }
}

/// A tidy image with one more reference that lies within it is tidy.
pub proof fn lemma_deferred_is_tidy(image: Image, fixup: FixupView, local: bool)
    requires
        tidy(image),
        within(fixup, image.output.len() as int),
    ensures
        tidy(deferred(image, fixup, local)),
{
    let more = deferred(image, fixup, local);
    assert forall|i: int| 0 <= i < more.relative.len() implies within(
        #[trigger] more.relative[i],
        more.output.len() as int,
    ) by {
        if i < image.relative.len() {
            assert(within(image.relative[i], image.output.len() as int));
        }
    }
    assert forall|i: int| 0 <= i < more.absolute.len() implies within(
        #[trigger] more.absolute[i],
        more.output.len() as int,
    ) by {
        if i < image.absolute.len() {
            assert(within(image.absolute[i], image.output.len() as int));
        }
    }
    assert forall|i: int| 0 <= i < more.local.len() implies within(
        #[trigger] more.local[i],
        more.output.len() as int,
    ) by {
        if i < image.local.len() {
            assert(within(image.local[i], image.output.len() as int));
        }
    }
}

/// An instruction keeps a tidy image tidy.
pub proof fn lemma_instr_keeps_tidy(image: Image, ast_index: int, instr: int, info: InstrInfoView)
    requires
        tidy(image),
    ensures
        encode_instr(image, ast_index, instr, info) matches Ok(written) ==> tidy(written),
{
    let mode = operand_mode(instr, info);
    match opcode_of(instr, mode) {
        None => {},
        Some(opcode) => {
            let position = image.output.len() as int + 1;
            match info.value {
                InstrValueView::Byte(number) => {
                    if operand_bytes(mode, number as int) is Some {
                        lemma_extended_is_tidy(image, seq![opcode] + operand_bytes(mode, number as int)->0);
                    }
                },
                InstrValueView::Word(number) => {
                    if operand_bytes(mode, number as int) is Some {
                        lemma_extended_is_tidy(image, seq![opcode] + operand_bytes(mode, number as int)->0);
                    }
                },
                InstrValueView::Reference(name) => {
                    lemma_refer_keeps_tidy(image, ast_index, opcode, mode, name, false);
                },
                InstrValueView::LocalReference(name) => {
                    lemma_refer_keeps_tidy(image, ast_index, opcode, mode, name, true);
                },
            }
        },
    }
}

/// An instruction that names a label keeps a tidy image tidy.
pub proof fn lemma_refer_keeps_tidy(
    image: Image,
    ast_index: int,
    opcode: u8,
    mode: ModeType,
    name: Seq<char>,
    local: bool,
)
    requires
        tidy(image),
    ensures
        refer(image, ast_index, opcode, mode, name, local) matches Ok(written) ==> tidy(written),
{
    let symbols = if local {
        image.local_branches
    } else {
        image.branches
    };
    let position = image.output.len() as int + 1;
    if mode == ModeType::Relative {
        if symbols.contains_key(name) {
            lemma_extended_is_tidy(image, seq![opcode, displacement(symbols[name] as int, position)]);
        } else {
            lemma_extended_is_tidy(image, seq![opcode, 0u8]);
            lemma_deferred_is_tidy(
                extended(image, seq![opcode, 0u8]),
                FixupView { name, position, ast_index, kind: FixupKind::Relative },
                local,
            );
        }
    } else if is_wide(mode) {
        if symbols.contains_key(name) {
            lemma_extended_is_tidy(
                image,
                seq![opcode] + word_bytes(address(image.start_point, symbols[name] as int)),
            );
        } else {
            lemma_extended_is_tidy(image, seq![opcode, 0u8, 0u8]);
            lemma_deferred_is_tidy(
                extended(image, seq![opcode, 0u8, 0u8]),
                FixupView { name, position, ast_index, kind: FixupKind::Absolute },
                local,
            );
        }
    }
}

/// A label keeps a tidy image tidy.
pub proof fn lemma_label_keeps_tidy(image: Image, name: Seq<char>, scope: BranchType)
    requires
        tidy(image),
    ensures
        define_label(image, name, scope) matches Ok(written) ==> tidy(written) && written.output.len()
            == image.output.len(),
{
    match scope {
        BranchType::Generic => {},
        BranchType::Local => {
            lemma_settle_named_tidy(
                image.output,
                image.local,
                0,
                name,
                image.output.len() as usize as int,
                image.start_point,
                Seq::empty(),
            );
        },
    }
}

/// A directive keeps a tidy image tidy.
pub proof fn lemma_directive_keeps_tidy(
    image: Image,
    directive: DirectiveEnum,
    values: Seq<DirectiveValueView>,
)
    requires
        tidy(image),
    ensures
        direct(image, directive, values) matches Ok(written) ==> tidy(written),
{
    match direct(image, directive, values) {
        Ok(written) => {
            if written.output != image.output {
                let bytes = written.output.skip(image.output.len() as int);
                assert(written.output =~= image.output + bytes);
                lemma_extended_is_tidy(image, bytes);
                assert(written == extended(image, bytes));
            } else {
                assert(written.relative == image.relative);
                assert(written.absolute == image.absolute);
                assert(written.local == image.local);
            }
        },
        Err(_) => {},
    }
}

/// Every node keeps a tidy image tidy.
pub proof fn lemma_step_keeps_tidy(image: Image, ast_index: int, node: AstView)
    requires
        tidy(image),
    ensures
        step(image, ast_index, node) matches Ok(written) ==> tidy(written),
{
    match node {
        AstView::InstrImplied(instr) => {
            if opcode_of(instr, ModeType::Implied) is Some {
                lemma_extended_is_tidy(image, seq![opcode_of(instr, ModeType::Implied)->0]);
            }
        },
        AstView::Instr(instr, info) => {
            lemma_instr_keeps_tidy(image, ast_index, instr, info);
        },
        AstView::Branch(name, scope) => {
            lemma_label_keeps_tidy(image, name, scope);
        },
        AstView::Directive(directive, values) => {
            lemma_directive_keeps_tidy(image, directive, values);
        },
    }
}

/// No node touches the operand of a reference to a global label that
/// waits, nor lets another reference share its bytes.
pub proof fn lemma_step_keeps_waiting(
    image: Image,
    ast_index: int,
    node: AstView,
    fixup: FixupView,
    k: int,
)
    requires
        waits(image, fixup, k),
    ensures
        step(image, ast_index, node) matches Ok(written) ==> waits(written, fixup, k) && same_operand(
            written.output,
            image.output,
            fixup,
        ),
{
    match step(image, ast_index, node) {
        Ok(written) => {
            match node {
                AstView::Branch(name, BranchType::Local) => {
                    lemma_settle_named_keeps(
                        image.output,
                        image.local,
                        0,
                        name,
                        image.output.len() as usize as int,
                        image.start_point,
                        Seq::empty(),
                        fixup,
                    );
                },
                _ => {},
            }
            assert forall|i: int| 0 <= i < written.local.len() implies apart(
                #[trigger] written.local[i],
                fixup,
            ) by {
                match node {
                    AstView::Branch(_, _) => {},
                    _ => {
                        if i < image.local.len() {
                            assert(apart(image.local[i], fixup));
                        }
                    },
                }
            }
            assert forall|i: int|
                0 <= i < written.relative.len() && !(fixup.kind == FixupKind::Relative && i == k) implies apart(
                #[trigger] written.relative[i],
                fixup,
            ) by {
                if i < image.relative.len() {
                    assert(apart(image.relative[i], fixup));
                }
            }
            assert forall|i: int|
                0 <= i < written.absolute.len() && !(fixup.kind == FixupKind::Absolute && i == k) implies apart(
                #[trigger] written.absolute[i],
                fixup,
            ) by {
                if i < image.absolute.len() {
                    assert(apart(image.absolute[i], fixup));
                }
            }
        },
        Err(_) => {},
    }
}

/// A reference to a global label that waits is closed by the end of every
/// pass that ends well: the label is known then, and where the operand
/// stands the image holds the distance to the label, or its address.
pub proof fn lemma_waiting_reference_is_closed(
    nodes: Seq<AstInfoView>,
    pos: int,
    image: Image,
    fixup: FixupView,
    k: int,
)
    requires
        waits(image, fixup, k),
        generation(nodes, pos, image).outcome == Ok::<Halt, CodeGeneratorFault>(Halt::Finished),
    ensures
        generation(nodes, pos, image).image.branches.contains_key(fixup.name),
        closed(
            generation(nodes, pos, image).image.output,
            fixup,
            generation(nodes, pos, image).image.branches[fixup.name] as int,
            generation(nodes, pos, image).image.start_point,
        ),
    decreases nodes.len() - pos,
{
    if pos < 0 || pos >= nodes.len() {
        let branched = settle(image.output, image.relative, 0, image.branches, image.start_point)->Ok_0;
        let jumped = settle(branched, image.absolute, 0, image.branches, image.start_point)->Ok_0;
        match fixup.kind {
            FixupKind::Relative => {
                lemma_settle_closes(image.output, image.relative, 0, image.branches, image.start_point, k);
                lemma_settle_keeps(branched, image.absolute, 0, image.branches, image.start_point, fixup);
                assert(jumped[fixup.position] == branched[fixup.position]);
            },
            FixupKind::Absolute => {
                lemma_settle_keeps(image.output, image.relative, 0, image.branches, image.start_point, fixup);
                lemma_settle_closes(branched, image.absolute, 0, image.branches, image.start_point, k);
            },
        }
    } else {
        match step(image, pos, nodes[pos].ast) {
            Ok(written) => {
                lemma_step_keeps_waiting(image, pos, nodes[pos].ast, fixup, k);
                lemma_waiting_reference_is_closed(nodes, pos + 1, written, fixup, k);
            },
            Err(_) => {},
        }
    }
}

/// A branch to a global label that is defined only later resolves: if the
/// pass from the branch on ends well, the label is known at its end, and
/// the operand of the branch holds the distance from the byte behind the
/// instruction to the label.
pub proof fn lemma_forward_branch_resolves(
    nodes: Seq<AstInfoView>,
    pos: int,
    image: Image,
    instr: int,
    info: InstrInfoView,
    name: Seq<char>,
)
    requires
        tidy(image),
        0 <= pos < nodes.len(),
        nodes[pos].ast == AstView::Instr(instr, info),
        is_branch(instr),
        info.value == InstrValueView::Reference(name),
        !image.branches.contains_key(name),
        generation(nodes, pos, image).outcome == Ok::<Halt, CodeGeneratorFault>(Halt::Finished),
    ensures
        generation(nodes, pos, image).image.branches.contains_key(name),
        generation(nodes, pos, image).image.output[image.output.len() as int + 1] == displacement(
            generation(nodes, pos, image).image.branches[name] as int,
            image.output.len() as int + 1,
        ),
{
    let fixup = FixupView {
        name,
        position: image.output.len() as int + 1,
        ast_index: pos,
        kind: FixupKind::Relative,
    };
    let written = step(image, pos, nodes[pos].ast)->Ok_0;
    assert forall|i: int| 0 <= i < written.relative.len() && i != image.relative.len() implies apart(
        #[trigger] written.relative[i],
        fixup,
    ) by {
        assert(within(image.relative[i], image.output.len() as int));
    }
    assert forall|i: int| 0 <= i < written.absolute.len() implies apart(
        #[trigger] written.absolute[i],
        fixup,
    ) by {
        assert(within(image.absolute[i], image.output.len() as int));
    }
    assert forall|i: int| 0 <= i < written.local.len() implies apart(#[trigger] written.local[i], fixup) by {
        assert(within(image.local[i], image.output.len() as int));
    }
    lemma_waiting_reference_is_closed(nodes, pos + 1, written, fixup, image.relative.len() as int);
}

/// A jump to a global label that is defined only later resolves: if the
/// pass from the jump on ends well, the label is known at its end, and the
/// operand of the jump holds the address of the label, which is the start
/// address plus the label's place, low byte first.
pub proof fn lemma_forward_jump_resolves(
    nodes: Seq<AstInfoView>,
    pos: int,
    image: Image,
    instr: int,
    info: InstrInfoView,
    name: Seq<char>,
)
    requires
        tidy(image),
        0 <= pos < nodes.len(),
        nodes[pos].ast == AstView::Instr(instr, info),
        !is_branch(instr),
        is_wide(operand_mode(instr, info)),
        info.value == InstrValueView::Reference(name),
        !image.branches.contains_key(name),
        generation(nodes, pos, image).outcome == Ok::<Halt, CodeGeneratorFault>(Halt::Finished),
    ensures
        generation(nodes, pos, image).image.branches.contains_key(name),
        generation(nodes, pos, image).image.output[image.output.len() as int + 1] == low_byte(
            address(
                generation(nodes, pos, image).image.start_point,
                generation(nodes, pos, image).image.branches[name] as int,
            ),
        ),
        generation(nodes, pos, image).image.output[image.output.len() as int + 2] == high_byte(
            address(
                generation(nodes, pos, image).image.start_point,
                generation(nodes, pos, image).image.branches[name] as int,
            ),
        ),
{
    let fixup = FixupView {
        name,
        position: image.output.len() as int + 1,
        ast_index: pos,
        kind: FixupKind::Absolute,
    };
    let written = step(image, pos, nodes[pos].ast)->Ok_0;
    assert forall|i: int| 0 <= i < written.absolute.len() && i != image.absolute.len() implies apart(
        #[trigger] written.absolute[i],
        fixup,
    ) by {
        assert(within(image.absolute[i], image.output.len() as int));
    }
    assert forall|i: int| 0 <= i < written.relative.len() implies apart(
        #[trigger] written.relative[i],
        fixup,
    ) by {
        assert(within(image.relative[i], image.output.len() as int));
    }
    assert forall|i: int| 0 <= i < written.local.len() implies apart(#[trigger] written.local[i], fixup) by {
        assert(within(image.local[i], image.output.len() as int));
    }
    lemma_waiting_reference_is_closed(nodes, pos + 1, written, fixup, image.absolute.len() as int);
}

/// Whether the operand of `fixup` lies within the image and apart from the
/// operand of every open reference: nothing will write there any more.
pub open spec fn settled(image: Image, fixup: FixupView) -> bool {
    &&& within(fixup, image.output.len() as int)
    &&& all_apart(image.relative, fixup, -1)
    &&& all_apart(image.absolute, fixup, -1)
    &&& all_apart(image.local, fixup, -1)
}

/// Closing the references to a local label closes the one at `k`, if it
/// names the label and all behind it are apart from it.
pub proof fn lemma_settle_named_closes(
    output: Seq<u8>,
    fixups: Seq<FixupView>,
    from: int,
    name: Seq<char>,
    target: int,
    start: u16,
    kept: Seq<FixupView>,
    k: int,
)
    requires
        0 <= from <= k < fixups.len(),
        fixups[k].name == name,
        within(fixups[k], output.len() as int),
        forall|i: int| from <= i < fixups.len() && i != k ==> apart(#[trigger] fixups[i], fixups[k]),
        all_apart(kept, fixups[k], -1),
    ensures
        settle_named(output, fixups, from, name, target, start, kept) matches Ok((written, left)) ==> {
            &&& written.len() == output.len()
            &&& closed(written, fixups[k], target, start)
            &&& all_apart(left, fixups[k], -1)
        },
    decreases fixups.len() - from,
{
    if from == k {
        match patched(output, fixups[from], target, start) {
            None => {},
            Some(written) => {
                lemma_settle_named_keeps(written, fixups, from + 1, name, target, start, kept, fixups[k]);
                match settle_named(written, fixups, from + 1, name, target, start, kept) {
                    Ok((done, _)) => {
                        assert(same_operand(done, written, fixups[k]));
                        assert(done[fixups[k].position] == written[fixups[k].position]);
                        if fixups[k].kind == FixupKind::Absolute {
                            assert(done[fixups[k].position + 1] == written[fixups[k].position + 1]);
                        }
                    },
                    Err(_) => {},
                }
            },
        }
    } else {
        assert(apart(fixups[from], fixups[k]));
        if fixups[from].name != name {
            let more = kept.push(fixups[from]);
            assert forall|i: int| 0 <= i < more.len() implies apart(#[trigger] more[i], fixups[k]) by {
                if i < kept.len() {
                    assert(apart(kept[i], fixups[k]));
                }
            }
            lemma_settle_named_closes(output, fixups, from + 1, name, target, start, more, k);
        } else {
            match patched(output, fixups[from], target, start) {
                None => {},
                Some(written) => {
                    lemma_settle_named_closes(written, fixups, from + 1, name, target, start, kept, k);
                },
            }
        }
    }
}

/// A local label closes at once every open reference that names it: where
/// the operand of such a reference stands, the image then holds the
/// distance to the label, or its address, and nothing will write there any
/// more.
pub proof fn lemma_local_label_closes(image: Image, name: Seq<char>, k: int)
    requires
        0 <= k < image.local.len(),
        image.output.len() <= usize::MAX,
        image.local[k].name == name,
        within(image.local[k], image.output.len() as int),
        all_apart(image.local, image.local[k], k),
        all_apart(image.relative, image.local[k], -1),
        all_apart(image.absolute, image.local[k], -1),
    ensures
        define_label(image, name, BranchType::Local) matches Ok(written) ==> {
            &&& closed(written.output, image.local[k], image.output.len() as int, image.start_point)
            &&& settled(written, image.local[k])
            &&& written.local_branches.contains_key(name)
            &&& written.local_branches[name] == image.output.len()
        },
{
    lemma_settle_named_closes(
        image.output,
        image.local,
        0,
        name,
        image.output.len() as usize as int,
        image.start_point,
        Seq::empty(),
        k,
    );
}

/// No node writes where a settled operand stands, nor unsettles it.
pub proof fn lemma_step_keeps_settled(image: Image, ast_index: int, node: AstView, fixup: FixupView)
    requires
        settled(image, fixup),
    ensures
        step(image, ast_index, node) matches Ok(written) ==> settled(written, fixup) && same_operand(
            written.output,
            image.output,
            fixup,
        ),
{
    match step(image, ast_index, node) {
        Ok(written) => {
            match node {
                AstView::Branch(name, BranchType::Local) => {
                    lemma_settle_named_keeps(
                        image.output,
                        image.local,
                        0,
                        name,
                        image.output.len() as usize as int,
                        image.start_point,
                        Seq::empty(),
                        fixup,
                    );
                },
                _ => {},
            }
            assert forall|i: int| 0 <= i < written.local.len() implies apart(
                #[trigger] written.local[i],
                fixup,
            ) by {
                match node {
                    AstView::Branch(_, _) => {},
                    _ => {
                        if i < image.local.len() {
                            assert(apart(image.local[i], fixup));
                        }
                    },
                }
            }
            assert forall|i: int| 0 <= i < written.relative.len() implies apart(
                #[trigger] written.relative[i],
                fixup,
            ) by {
                if i < image.relative.len() {
                    assert(apart(image.relative[i], fixup));
                }
            }
            assert forall|i: int| 0 <= i < written.absolute.len() implies apart(
                #[trigger] written.absolute[i],
                fixup,
            ) by {
                if i < image.absolute.len() {
                    assert(apart(image.absolute[i], fixup));
                }
            }
        },
        Err(_) => {},
    }
}

/// What stands in a settled operand stays there to the end of every pass
/// that ends well.
pub proof fn lemma_settled_operand_stays(
    nodes: Seq<AstInfoView>,
    pos: int,
    image: Image,
    fixup: FixupView,
)
    requires
        settled(image, fixup),
        generation(nodes, pos, image).outcome == Ok::<Halt, CodeGeneratorFault>(Halt::Finished),
    ensures
        same_operand(generation(nodes, pos, image).image.output, image.output, fixup),
    decreases nodes.len() - pos,
{
    if pos < 0 || pos >= nodes.len() {
        let branched = settle(image.output, image.relative, 0, image.branches, image.start_point)->Ok_0;
        let jumped = settle(branched, image.absolute, 0, image.branches, image.start_point)->Ok_0;
        lemma_settle_keeps(image.output, image.relative, 0, image.branches, image.start_point, fixup);
        lemma_settle_keeps(branched, image.absolute, 0, image.branches, image.start_point, fixup);
        assert forall|place: int| fixup.position <= place < fixup.position + width(fixup.kind) implies jumped[place]
            == image.output[place] by {
            assert(jumped[place] == branched[place]);
            assert(branched[place] == image.output[place]);
        }
    } else {
        match step(image, pos, nodes[pos].ast) {
            Ok(written) => {
                lemma_step_keeps_settled(image, pos, nodes[pos].ast, fixup);
                lemma_settled_operand_stays(nodes, pos + 1, written, fixup);
                let done = generation(nodes, pos + 1, written).image.output;
                assert forall|place: int|
                    fixup.position <= place < fixup.position + width(fixup.kind) implies done[place]
                    == image.output[place] by {
                    assert(done[place] == written.output[place]);
                    assert(written.output[place] == image.output[place]);
                }
            },
            Err(_) => {},
        }
    }
}

/// Whether a local label `name` is defined from the node at `pos` on before
/// the scope ends, that is before the next global label or the last node.
pub open spec fn defined_in_scope(nodes: Seq<AstInfoView>, pos: int, name: Seq<char>) -> bool
    decreases nodes.len() - pos,
{
    if pos < 0 || pos >= nodes.len() {
        false
    } else {
        match nodes[pos].ast {
            AstView::Branch(label, BranchType::Local) => label == name || defined_in_scope(nodes, pos + 1, name),
            AstView::Branch(_, BranchType::Generic) => false,
            _ => defined_in_scope(nodes, pos + 1, name),
        }
    }
}

/// Whether a queue holds a reference.
pub open spec fn holds(fixups: Seq<FixupView>, fixup: FixupView) -> bool {
    exists|i: int| 0 <= i < fixups.len() && #[trigger] fixups[i] == fixup
}

/// Closing the references to a local label leaves in the queue every
/// reference that names another label.
pub proof fn lemma_settle_named_retains(
    output: Seq<u8>,
    fixups: Seq<FixupView>,
    from: int,
    name: Seq<char>,
    target: int,
    start: u16,
    kept: Seq<FixupView>,
    fixup: FixupView,
)
    requires
        0 <= from,
        fixup.name != name,
        holds(kept, fixup) || exists|i: int| from <= i < fixups.len() && #[trigger] fixups[i] == fixup,
    ensures
        settle_named(output, fixups, from, name, target, start, kept) matches Ok((_, left)) ==> holds(
            left,
            fixup,
        ),
    decreases fixups.len() - from,
{
    if from < fixups.len() {
        if fixups[from].name != name {
            let more = kept.push(fixups[from]);
            if holds(kept, fixup) {
                let i = choose|i: int| 0 <= i < kept.len() && #[trigger] kept[i] == fixup;
                assert(more[i] == fixup);
            } else {
                let i = choose|i: int| from <= i < fixups.len() && #[trigger] fixups[i] == fixup;
                if i == from {
                    assert(more[kept.len() as int] == fixup);
                }
            }
            lemma_settle_named_retains(output, fixups, from + 1, name, target, start, more, fixup);
        } else {
            match patched(output, fixups[from], target, start) {
                None => {},
                Some(written) => {
                    lemma_settle_named_retains(written, fixups, from + 1, name, target, start, kept, fixup);
                },
            }
        }
    }
}

/// A reference to a local label whose label is not defined before the
/// scope ends makes the pass fail: no pass from there on ends well, not
/// even where a later scope defines a local label of the same name.
pub proof fn lemma_local_reference_needs_label(
    nodes: Seq<AstInfoView>,
    pos: int,
    image: Image,
    fixup: FixupView,
)
    requires
        holds(image.local, fixup),
        !defined_in_scope(nodes, pos, fixup.name),
    ensures
        generation(nodes, pos, image).outcome != Ok::<Halt, CodeGeneratorFault>(Halt::Finished),
    decreases nodes.len() - pos,
{
    if 0 <= pos < nodes.len() {
        if binary_asked(nodes[pos].ast) is None {
            match step(image, pos, nodes[pos].ast) {
                Ok(written) => {
                    let i = choose|i: int| 0 <= i < image.local.len() && #[trigger] image.local[i] == fixup;
                    match nodes[pos].ast {
                        AstView::Branch(_, BranchType::Generic) => {
                            lemma_orphans_fail(nodes, pos + 1, written);
                        },
                        AstView::Branch(label, BranchType::Local) => {
                            lemma_settle_named_retains(
                                image.output,
                                image.local,
                                0,
                                label,
                                image.output.len() as usize as int,
                                image.start_point,
                                Seq::empty(),
                                fixup,
                            );
                            lemma_local_reference_needs_label(nodes, pos + 1, written, fixup);
                        },
                        _ => {
                            assert(written.local[i] == fixup);
                            lemma_local_reference_needs_label(nodes, pos + 1, written, fixup);
                        },
                    }
                },
                Err(_) => {},
            }
        }
    }
}

/// The image as it stands before the node at `pos` in a pass that started
/// with `image` before the node at `start`. It counts where every node in
/// between is written without a fault.
pub open spec fn image_before(nodes: Seq<AstInfoView>, start: int, image: Image, pos: int) -> Image
    decreases pos - start,
{
    if pos <= start {
        image
    } else {
        match step(image_before(nodes, start, image, pos - 1), pos - 1, nodes[pos - 1].ast) {
            Ok(written) => written,
            Err(_) => image_before(nodes, start, image, pos - 1),
        }
    }
}

/// A pass that ends well is, from each of its nodes on, the pass from that
/// node with the image as it stands before it; and it keeps a tidy image
/// tidy all along.
pub proof fn lemma_pass_goes_on(nodes: Seq<AstInfoView>, start: int, image: Image, pos: int)
    requires
        0 <= start <= pos <= nodes.len(),
        generation(nodes, start, image).outcome == Ok::<Halt, CodeGeneratorFault>(Halt::Finished),
    ensures
        generation(nodes, start, image) == generation(nodes, pos, image_before(nodes, start, image, pos)),
        tidy(image) ==> tidy(image_before(nodes, start, image, pos)),
    decreases pos - start,
{
    if pos > start {
        lemma_pass_goes_on(nodes, start, image, pos - 1);
        let before = image_before(nodes, start, image, pos - 1);
        if tidy(image) {
            lemma_step_keeps_tidy(before, pos - 1, nodes[pos - 1].ast);
        }
    }
}

/// A branch to a global label that is defined only later resolves in every
/// pass that ends well: the label is known at the end of the pass, and the
/// operand of the branch holds the distance from the byte behind the
/// instruction to the label.
pub proof fn lemma_forward_branch_resolves_in_pass(
    nodes: Seq<AstInfoView>,
    image: Image,
    pos: int,
    instr: int,
    info: InstrInfoView,
    name: Seq<char>,
)
    requires
        tidy(image),
        0 <= pos < nodes.len(),
        generation(nodes, 0, image).outcome == Ok::<Halt, CodeGeneratorFault>(Halt::Finished),
        nodes[pos].ast == AstView::Instr(instr, info),
        is_branch(instr),
        info.value == InstrValueView::Reference(name),
        !image_before(nodes, 0, image, pos).branches.contains_key(name),
    ensures
        generation(nodes, 0, image).image.branches.contains_key(name),
        generation(nodes, 0, image).image.output[image_before(nodes, 0, image, pos).output.len() as int + 1]
            == displacement(
            generation(nodes, 0, image).image.branches[name] as int,
            image_before(nodes, 0, image, pos).output.len() as int + 1,
        ),
{
    lemma_pass_goes_on(nodes, 0, image, pos);
    lemma_forward_branch_resolves(nodes, pos, image_before(nodes, 0, image, pos), instr, info, name);
}

/// A jump to a global label that is defined only later resolves in every
/// pass that ends well: the label is known at the end of the pass, and the
/// operand of the jump holds the start address plus the label's place, low
/// byte first.
pub proof fn lemma_forward_jump_resolves_in_pass(
    nodes: Seq<AstInfoView>,
    image: Image,
    pos: int,
    instr: int,
    info: InstrInfoView,
    name: Seq<char>,
)
    requires
        tidy(image),
        0 <= pos < nodes.len(),
        generation(nodes, 0, image).outcome == Ok::<Halt, CodeGeneratorFault>(Halt::Finished),
        nodes[pos].ast == AstView::Instr(instr, info),
        !is_branch(instr),
        is_wide(operand_mode(instr, info)),
        info.value == InstrValueView::Reference(name),
        !image_before(nodes, 0, image, pos).branches.contains_key(name),
    ensures
        generation(nodes, 0, image).image.branches.contains_key(name),
        generation(nodes, 0, image).image.output[image_before(nodes, 0, image, pos).output.len() as int + 1]
            == low_byte(
            address(
                generation(nodes, 0, image).image.start_point,
                generation(nodes, 0, image).image.branches[name] as int,
            ),
        ),
        generation(nodes, 0, image).image.output[image_before(nodes, 0, image, pos).output.len() as int + 2]
            == high_byte(
            address(
                generation(nodes, 0, image).image.start_point,
                generation(nodes, 0, image).image.branches[name] as int,
            ),
        ),
{
    lemma_pass_goes_on(nodes, 0, image, pos);
    lemma_forward_jump_resolves(nodes, pos, image_before(nodes, 0, image, pos), instr, info, name);
}

/// A branch to a global label that is known stays as it was written: at
/// the end of every pass that ends well, its operand holds the distance
/// from the byte behind the instruction to the place that the label had
/// when the branch was written.
pub proof fn lemma_backward_branch_stays(
    nodes: Seq<AstInfoView>,
    pos: int,
    image: Image,
    instr: int,
    info: InstrInfoView,
    name: Seq<char>,
)
    requires
        tidy(image),
        0 <= pos < nodes.len(),
        nodes[pos].ast == AstView::Instr(instr, info),
        is_branch(instr),
        info.value == InstrValueView::Reference(name),
        image.branches.contains_key(name),
        generation(nodes, pos, image).outcome == Ok::<Halt, CodeGeneratorFault>(Halt::Finished),
    ensures
        generation(nodes, pos, image).image.output[image.output.len() as int + 1] == displacement(
            image.branches[name] as int,
            image.output.len() as int + 1,
        ),
{
    let operand = FixupView {
        name,
        position: image.output.len() as int + 1,
        ast_index: pos,
        kind: FixupKind::Relative,
    };
    let written = step(image, pos, nodes[pos].ast)->Ok_0;
    assert forall|i: int| 0 <= i < written.relative.len() implies apart(
        #[trigger] written.relative[i],
        operand,
    ) by {
        assert(within(image.relative[i], image.output.len() as int));
    }
    assert forall|i: int| 0 <= i < written.absolute.len() implies apart(
        #[trigger] written.absolute[i],
        operand,
    ) by {
        assert(within(image.absolute[i], image.output.len() as int));
    }
    assert forall|i: int| 0 <= i < written.local.len() implies apart(#[trigger] written.local[i], operand) by {
        assert(within(image.local[i], image.output.len() as int));
    }
    lemma_settled_operand_stays(nodes, pos + 1, written, operand);
    assert(generation(nodes, pos, image).image.output[operand.position] == written.output[operand.position]);
}

/// A pass that ends well has closed every reference: no reference to a
/// local label is open or orphaned at its end, and every label that a
/// deferred reference names is known.
pub proof fn lemma_finished_pass_closed_all(nodes: Seq<AstInfoView>, pos: int, image: Image)
    requires
        generation(nodes, pos, image).outcome == Ok::<Halt, CodeGeneratorFault>(Halt::Finished),
    ensures
        generation(nodes, pos, image).image.local.len() == 0,
        generation(nodes, pos, image).image.orphaned.len() == 0,
        forall|i: int|
            0 <= i < generation(nodes, pos, image).image.relative.len() ==> generation(
                nodes,
                pos,
                image,
            ).image.branches.contains_key(#[trigger] generation(nodes, pos, image).image.relative[i].name),
        forall|i: int|
            0 <= i < generation(nodes, pos, image).image.absolute.len() ==> generation(
                nodes,
                pos,
                image,
            ).image.branches.contains_key(#[trigger] generation(nodes, pos, image).image.absolute[i].name),
    decreases nodes.len() - pos,
{
    if pos < 0 || pos >= nodes.len() {
        lemma_settle_needs_labels(image.output, image.relative, 0, image.branches, image.start_point);
        let branched = settle(image.output, image.relative, 0, image.branches, image.start_point)->Ok_0;
        lemma_settle_needs_labels(branched, image.absolute, 0, image.branches, image.start_point);
    } else {
        match step(image, pos, nodes[pos].ast) {
            Ok(written) => {
                lemma_finished_pass_closed_all(nodes, pos + 1, written);
            },
            Err(_) => {},
        }
    }
}

/// Whether a global label `name` is defined by the node at `pos` or by one
/// behind it.
pub open spec fn defined_later(nodes: Seq<AstInfoView>, pos: int, name: Seq<char>) -> bool {
    exists|i: int| pos <= i < nodes.len() && (#[trigger] nodes[i]).ast == AstView::Branch(name, BranchType::Generic)
}

/// A deferred reference to a global label that is not known and that no
/// later node defines makes the pass fail, whatever follows: no pass from
/// there on ends well.
pub proof fn lemma_undefined_label_fails(nodes: Seq<AstInfoView>, pos: int, image: Image, fixup: FixupView)
    requires
        0 <= pos,
        holds(image.relative, fixup) || holds(image.absolute, fixup),
        !image.branches.contains_key(fixup.name),
        !defined_later(nodes, pos, fixup.name),
    ensures
        generation(nodes, pos, image).outcome != Ok::<Halt, CodeGeneratorFault>(Halt::Finished),
    decreases nodes.len() - pos,
{
    if pos >= nodes.len() {
        lemma_settle_needs_labels(image.output, image.relative, 0, image.branches, image.start_point);
        match settle(image.output, image.relative, 0, image.branches, image.start_point) {
            Ok(branched) => {
                lemma_settle_needs_labels(branched, image.absolute, 0, image.branches, image.start_point);
            },
            Err(_) => {},
        }
    } else if binary_asked(nodes[pos].ast) is None {
        match step(image, pos, nodes[pos].ast) {
            Ok(written) => {
                assert(nodes[pos].ast != AstView::Branch(fixup.name, BranchType::Generic));
                if holds(image.relative, fixup) {
                    let i = choose|i: int| 0 <= i < image.relative.len() && #[trigger] image.relative[i] == fixup;
                    assert(written.relative[i] == fixup);
                } else {
                    let i = choose|i: int| 0 <= i < image.absolute.len() && #[trigger] image.absolute[i] == fixup;
                    assert(written.absolute[i] == fixup);
                }
                assert forall|i: int| pos + 1 <= i < nodes.len() implies (#[trigger] nodes[i]).ast
                    != AstView::Branch(fixup.name, BranchType::Generic) by {}
                lemma_undefined_label_fails(nodes, pos + 1, written, fixup);
            },
            Err(_) => {},
        }
    }
}

} // verus!
