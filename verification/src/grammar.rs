//! What the resolver reads: the operand of an instruction, the list of
//! values of a directive, the statement, and the run over all tokens.

use vstd::prelude::*;
use crate::ast::{
    AstGeneratorFault, AstInfoView, AstView, BranchType, InstrInfoRegister, InstrInfoView,
    InstrValueView,
};
use crate::context::located;
use crate::directive::{
    DirectiveEnum, DirectiveType, DirectiveValue, DirectiveValueView, DirectiveVariableSize,
    accepts, system_directive,
};
use crate::opcode::{is_branch, is_operandless};
use crate::parser::{TokenInfoView, TokenView};
use crate::tool::{decimal_digits, low_byte, same_ignoring_case, upper_char};

verus! {

/// The tokens of a run as plain values.
pub type TokenSeq = Seq<TokenInfoView>;

/// The constants assigned so far, by name.
pub type ReferenceMap = Map<Seq<char>, Seq<DirectiveValueView>>;

/// Where the cursor stands after a piece of grammar was read, and what was
/// read or why it could not be.
pub struct Parsed<T> {
    pub next: int,
    pub outcome: Result<T, AstGeneratorFault>,
}

/// The cursor at `next` after `value` was read.
pub open spec fn parsed<T>(next: int, value: T) -> Parsed<T> {
    Parsed { next, outcome: Ok(value) }
}

/// The cursor at `next` after reading failed with `fault`.
pub open spec fn failed<T>(next: int, fault: AstGeneratorFault) -> Parsed<T> {
    Parsed { next, outcome: Err(fault) }
}

/// A syntax fault located where the token at `token_index` stands.
pub open spec fn syntax_fault(
    tokens: TokenSeq,
    token_index: int,
    message: Seq<char>,
) -> AstGeneratorFault {
    AstGeneratorFault::SyntaxIssue {
        line: tokens[token_index].line,
        column: tokens[token_index].column,
        end: tokens[token_index].end,
        message,
    }
}

/// The constants of a context as plain values.
pub open spec fn reference_map(references: Map<Seq<char>, Vec<DirectiveValue>>) -> ReferenceMap {
    Map::new(|name: Seq<char>| references.contains_key(name), |name: Seq<char>| references[name].deep_view())
}

/// The cursor moved past one space token, if it stands on one.
pub open spec fn skip_space(tokens: TokenSeq, pos: int) -> int {
    if 0 <= pos < tokens.len() && tokens[pos].token is Space {
        pos + 1
    } else {
        pos
    }
}

/// How an operand begins.
pub struct Opening {
    /// The first token of the operand; faults that name no other token are
    /// located here.
    pub anchor: int,
    /// The token that holds the value.
    pub value_at: int,
    pub in_parenthesis: bool,
    pub is_immediate: bool,
}

/// The operand's value token, reached through an optional `#`.
pub open spec fn opening_sharp(
    tokens: TokenSeq,
    anchor: int,
    at: int,
    in_parenthesis: bool,
) -> Parsed<Opening> {
    if tokens[at].token is Sharp {
        if at + 1 >= tokens.len() {
            failed(at + 1, AstGeneratorFault::OutOfScope)
        } else {
            parsed(at + 2, Opening { anchor, value_at: at + 1, in_parenthesis, is_immediate: true })
        }
    } else {
        parsed(at + 1, Opening { anchor, value_at: at, in_parenthesis, is_immediate: false })
    }
}

/// The start of an operand: an optional space, an optional `(` with an
/// optional space behind it, an optional `#`, then the value token.
pub open spec fn opening(tokens: TokenSeq, pos: int) -> Parsed<Opening> {
    let first = skip_space(tokens, pos);
    if first < 0 || first >= tokens.len() {
        failed(first, AstGeneratorFault::OutOfScope)
    } else if tokens[first].token is OpenParenthesis {
        let second = skip_space(tokens, first + 1);
        if second >= tokens.len() {
            failed(second, AstGeneratorFault::OutOfScope)
        } else {
            opening_sharp(tokens, first, second, true)
        }
    } else {
        opening_sharp(tokens, first, first, false)
    }
}

/// The value that an operand's value token stands for. A keyword that names
/// a constant stands for the constant's single number; any other keyword is a
/// label; a directive-style name is a local label.
pub open spec fn operand_value(
    token: TokenView,
    references: ReferenceMap,
) -> Result<InstrValueView, Seq<char>> {
    match token {
        TokenView::Keyword(name) => {
            if references.contains_key(name) {
                let values = references[name];
                if values.len() != 1 {
                    Err("Only one token required"@)
                } else {
                    match values[0] {
                        DirectiveValueView::Byte(number) => Ok(InstrValueView::Byte(number)),
                        DirectiveValueView::Word(number) => Ok(InstrValueView::Word(number)),
                        _ => Err("Invalid token for number"@),
                    }
                }
            } else {
                Ok(InstrValueView::Reference(name))
            }
        },
        TokenView::Directive(name) => Ok(InstrValueView::LocalReference(name)),
        TokenView::Byte(number) => Ok(InstrValueView::Byte(number)),
        TokenView::Word(number) => Ok(InstrValueView::Word(number)),
        _ => Err("Invalid numbering number format"@),
    }
}

/// The register that a token names: `X` or `Y`, in either case.
pub open spec fn register_named(token: TokenView) -> Option<InstrInfoRegister> {
    match token {
        TokenView::Keyword(name) => {
            if same_ignoring_case(name, "X"@) {
                Some(InstrInfoRegister::X)
            } else if same_ignoring_case(name, "Y"@) {
                Some(InstrInfoRegister::Y)
            } else {
                None
            }
        },
        _ => None,
    }
}

/// What follows an operand's value.
pub struct Closing {
    pub register: InstrInfoRegister,
    /// Whether a `(` still waits for its `)`.
    pub parenthesis_open: bool,
}

/// An optional `, register` at `pos`. Inside an open parenthesis only `X` may
/// stand, behind a closed one only `Y`.
pub open spec fn closing_register(
    tokens: TokenSeq,
    pos: int,
    in_parenthesis: bool,
    parenthesis_open: bool,
) -> Parsed<Closing> {
    if tokens[pos].token is Comma {
        let at = skip_space(tokens, pos + 1);
        if at >= tokens.len() {
            failed(at, AstGeneratorFault::OutOfScope)
        } else {
            match register_named(tokens[at].token) {
                None => failed(at, syntax_fault(tokens, at, "Expected X or Y"@)),
                Some(register) => {
                    if parenthesis_open && register == InstrInfoRegister::Y {
                        failed(at, syntax_fault(tokens, at, "Expected X"@))
                    } else if !parenthesis_open && in_parenthesis && register == InstrInfoRegister::X {
                        failed(at, syntax_fault(tokens, at, "Expected Y"@))
                    } else {
                        parsed(at + 1, Closing { register, parenthesis_open })
                    }
                },
            }
        }
    } else {
        parsed(pos, Closing { register: InstrInfoRegister::NoRegister, parenthesis_open })
    }
}

/// What follows an operand's value: an optional space, an optional `)` (which
/// must have a token behind it), an optional `, register`.
pub open spec fn closing(tokens: TokenSeq, pos: int, in_parenthesis: bool) -> Parsed<Closing> {
    let at = skip_space(tokens, pos);
    if at < 0 || at >= tokens.len() {
        parsed(at, Closing { register: InstrInfoRegister::NoRegister, parenthesis_open: in_parenthesis })
    } else if tokens[at].token is CloseParenthesis {
        let behind = skip_space(tokens, at + 1);
        if behind >= tokens.len() {
            failed(behind, AstGeneratorFault::OutOfScope)
        } else {
            closing_register(tokens, behind, in_parenthesis, false)
        }
    } else {
        closing_register(tokens, at, in_parenthesis, in_parenthesis)
    }
}

/// An operand whose word is cut to its low byte where only a byte can
/// stand: in a plain immediate operand, and in an indexed operand in
/// parentheses.
pub open spec fn narrowed(info: InstrInfoView) -> InstrInfoView {
    let plain_immediate = info.is_immediate && !info.in_parenthesis && info.register == InstrInfoRegister::NoRegister;
    let indexed_indirect = !info.is_immediate && info.in_parenthesis && info.register != InstrInfoRegister::NoRegister;
    match info.value {
        InstrValueView::Word(number) if plain_immediate || indexed_indirect => InstrInfoView {
            value: InstrValueView::Byte(low_byte(number as int)),
            is_immediate: info.is_immediate,
            in_parenthesis: info.in_parenthesis,
            register: info.register,
        },
        _ => info,
    }
}

/// The operand that starts at `pos`.
pub open spec fn operand(
    tokens: TokenSeq,
    pos: int,
    references: ReferenceMap,
) -> Parsed<InstrInfoView> {
    let first = opening(tokens, pos);
    match first.outcome {
        Err(fault) => failed(first.next, fault),
        Ok(open) => match operand_value(tokens[open.value_at].token, references) {
            Err(message) => failed(first.next, syntax_fault(tokens, open.anchor, message)),
            Ok(value) => {
                let tail = closing(tokens, first.next, open.in_parenthesis);
                match tail.outcome {
                    Err(fault) => failed(tail.next, fault),
                    Ok(close) => {
                        let at = skip_space(tokens, tail.next);
                        let info = narrowed(
                            InstrInfoView {
                                value,
                                is_immediate: open.is_immediate,
                                in_parenthesis: open.in_parenthesis,
                                register: close.register,
                            },
                        );
                        if !close.parenthesis_open {
                            parsed(at, info)
                        } else if at >= tokens.len() {
                            failed(at, AstGeneratorFault::OutOfScope)
                        } else if tokens[at].token is CloseParenthesis {
                            parsed(at + 1, info)
                        } else {
                            failed(at + 1, syntax_fault(tokens, open.anchor, "Expected ')'"@))
                        }
                    },
                }
            },
        },
    }
}

/// Whether a value of kind `kind` may stand in a list: in any list where
/// nothing is said of kinds, else where the directive takes it.
pub open spec fn allowed(filter: Option<Seq<DirectiveType>>, kind: DirectiveType) -> bool {
    match filter {
        None => true,
        Some(kinds) => accepts(kinds, kind),
    }
}

/// The value that a token of a list stands for, if it is a value.
pub open spec fn listed_value(token: TokenView) -> Option<DirectiveValueView> {
    match token {
        TokenView::Keyword(name) => Some(DirectiveValueView::Reference(name)),
        TokenView::Word(number) => Some(DirectiveValueView::Word(number)),
        TokenView::Byte(number) => Some(DirectiveValueView::Byte(number)),
        TokenView::String(text) => Some(DirectiveValueView::String(text)),
        _ => None,
    }
}

/// Whether a token ends a list.
pub open spec fn ends_list(token: TokenView) -> bool {
    token is NewLine || token is Comment || token is End
}

/// The rest of a comma-separated list from `pos` on, behind the values
/// `values`; `found` says that a value was read and a comma or the end is
/// due. The list ends with the token that ends it, which is passed over, or
/// with the tokens.
pub open spec fn value_list(
    tokens: TokenSeq,
    pos: int,
    filter: Option<Seq<DirectiveType>>,
    found: bool,
    values: Seq<DirectiveValueView>,
) -> Parsed<Seq<DirectiveValueView>>
    decreases tokens.len() - pos,
{
    if pos < 0 || pos >= tokens.len() {
        parsed(pos, values)
    } else {
        let token = tokens[pos].token;
        if ends_list(token) {
            parsed(pos + 1, values)
        } else if token is Space {
            value_list(tokens, pos + 1, filter, found, values)
        } else if found {
            if token is Comma {
                value_list(tokens, pos + 1, filter, false, values)
            } else {
                failed(pos + 1, syntax_fault(tokens, pos, "Unexpected syntax"@))
            }
        } else {
            match listed_value(token) {
                Some(value) => {
                    if allowed(filter, value.kind()) {
                        value_list(tokens, pos + 1, filter, true, values.push(value))
                    } else {
                        failed(pos + 1, syntax_fault(tokens, pos, "Unexpected value type"@))
                    }
                },
                None => {
                    if token is Comma {
                        failed(pos + 1, syntax_fault(tokens, pos, "',' not expected"@))
                    } else {
                        failed(pos + 1, syntax_fault(tokens, pos, "Unexpected syntax"@))
                    }
                },
            }
        }
    }
}

/// The kinds that a filter lists, as plain values.
pub open spec fn kinds_of(filter: Option<&[DirectiveType]>) -> Option<Seq<DirectiveType>> {
    match filter {
        Some(kinds) => Some(kinds@),
        None => None,
    }
}

/// The list of values that starts at `pos`, behind an optional space.
pub open spec fn values_from(
    tokens: TokenSeq,
    pos: int,
    filter: Option<Seq<DirectiveType>>,
) -> Parsed<Seq<DirectiveValueView>> {
    value_list(tokens, skip_space(tokens, pos), filter, false, Seq::empty())
}

/// What one statement does to the run.
pub enum Effect {
    /// Nothing: a comment, a space, a line break.
    Nothing,
    /// One more node, located at the statement's first token.
    Node(AstView),
    /// One more constant.
    Assign(Seq<char>, Seq<DirectiveValueView>),
    /// The file named by the value is to be spliced in.
    Include(DirectiveValueView),
    /// The end marker was reached.
    Stop,
}

/// What is wrong with the number of a directive's values, if anything.
pub open spec fn arity_fault(size: DirectiveVariableSize, count: nat) -> Option<Seq<char>> {
    match size {
        DirectiveVariableSize::NoValue => if count != 0 {
            Some("No value expected"@)
        } else {
            None
        },
        DirectiveVariableSize::Min(min) => if count < min {
            Some("Minimum "@ + decimal_digits(min as nat) + " value(s) expected"@)
        } else {
            None
        },
        DirectiveVariableSize::Length(length) => if count != length {
            Some("Expected "@ + decimal_digits(length as nat) + " value(s)"@)
        } else {
            None
        },
        DirectiveVariableSize::Between(least, most) => if count < least || count > most {
            Some(
                "Expected "@ + decimal_digits(least as nat) + " to "@ + decimal_digits(most as nat)
                    + " value(s)"@,
            )
        } else {
            None
        },
    }
}

/// What is wrong with the fill of a storage directive, if anything: the
/// byte directive takes no word as its fill. For the word directive a byte
/// counts as a word.
pub open spec fn fill_fault(directive: DirectiveEnum, values: Seq<DirectiveValueView>) -> Option<Seq<char>> {
    if directive == DirectiveEnum::Dsb && values.len() > 1 && values[1] is Word {
        Some("Fill byte expected"@)
    } else {
        None
    }
}

/// The directive named `name` at `token_index`, with its values. Their
/// number and their kinds must be what the directive's row of the table
/// takes; a fault is located at the directive's token and leaves no node.
pub open spec fn directive_statement(
    tokens: TokenSeq,
    token_index: int,
    name: Seq<char>,
) -> Parsed<Effect> {
    match system_directive(name) {
        None => failed(
            token_index + 1,
            syntax_fault(tokens, token_index, "Unsupported compiler configuration"@),
        ),
        Some(info) => {
            let list = values_from(tokens, token_index + 1, Some(info.values));
            match list.outcome {
                Err(fault) => failed(list.next, fault),
                Ok(values) => match arity_fault(info.size, values.len()) {
                    Some(message) => failed(list.next, syntax_fault(tokens, token_index, message)),
                    None => {
                        if info.values.len() > 0 && values.len() == 0 {
                            failed(list.next, syntax_fault(tokens, token_index, "Missing information"@))
                        } else if fill_fault(info.directive, values) is Some {
                            failed(
                                list.next,
                                syntax_fault(tokens, token_index, fill_fault(info.directive, values)->0),
                            )
                        } else if info.directive == DirectiveEnum::Include && values.len() > 0 {
                            parsed(list.next, Effect::Include(values[0]))
                        } else {
                            parsed(list.next, Effect::Node(AstView::Directive(info.directive, values)))
                        }
                    },
                },
            }
        },
    }
}

/// A storage directive, under either of its names in any case, takes one or
/// two values: with none or with more than two the statement fails with a
/// syntax fault located at the directive's token, and so does the byte
/// directive with a word as its fill. No node is made.
pub proof fn lemma_storage_takes_one_or_two(tokens: TokenSeq, token_index: int, name: Seq<char>)
    requires
        same_ignoring_case(name, "DSB"@) || same_ignoring_case(name, "DSW"@),
    ensures
        system_directive(name) matches Some(info) && info.size == DirectiveVariableSize::Between(1, 2)
            && info.values == seq![DirectiveType::Byte, DirectiveType::Word] && (info.directive
            == DirectiveEnum::Dsb <==> same_ignoring_case(name, "DSB"@)) && (info.directive
            == DirectiveEnum::Dsw <==> same_ignoring_case(name, "DSW"@)),
        values_from(
            tokens,
            token_index + 1,
            Some(seq![DirectiveType::Byte, DirectiveType::Word]),
        ).outcome matches Ok(values) ==> {
            &&& values.len() == 0 || values.len() > 2 ==> directive_statement(
                tokens,
                token_index,
                name,
            ).outcome == Err::<Effect, AstGeneratorFault>(
                syntax_fault(
                    tokens,
                    token_index,
                    "Expected "@ + decimal_digits(1) + " to "@ + decimal_digits(2) + " value(s)"@,
                ),
            )
            &&& same_ignoring_case(name, "DSB"@) && values.len() == 2 && values[1] is Word
                ==> directive_statement(tokens, token_index, name).outcome == Err::<
                Effect,
                AstGeneratorFault,
            >(syntax_fault(tokens, token_index, "Fill byte expected"@))
        },
{
    reveal_strlit("BYTE");
    reveal_strlit("DB");
    reveal_strlit("WORD");
    reveal_strlit("DW");
    reveal_strlit("ORG");
    reveal_strlit("INCBIN");
    reveal_strlit("ASCII");
    reveal_strlit("ASCIIZ");
    reveal_strlit("WARNING");
    reveal_strlit("FAIL");
    reveal_strlit("INCLUDE");
    reveal_strlit("PAD");
    reveal_strlit("FILLVALUE");
    reveal_strlit("DSB");
    reveal_strlit("DSW");
    if same_ignoring_case(name, "DSB"@) {
        assert(upper_char(name[0]) == 'D' && upper_char(name[1]) == 'S' && upper_char(name[2]) == 'B');
    } else {
        assert(upper_char(name[0]) == 'D' && upper_char(name[1]) == 'S' && upper_char(name[2]) == 'W');
    }
    assert(!same_ignoring_case(name, "ORG"@)) by {
        if same_ignoring_case(name, "ORG"@) {
            assert(upper_char(name[0]) == 'O');
        }
    }
    assert(!same_ignoring_case(name, "PAD"@)) by {
        if same_ignoring_case(name, "PAD"@) {
            assert(upper_char(name[0]) == 'P');
        }
    }
    if same_ignoring_case(name, "DSB"@) {
        assert(!same_ignoring_case(name, "DSW"@)) by {
            if same_ignoring_case(name, "DSW"@) {
                assert(upper_char(name[2]) == 'W');
            }
        }
    } else {
        assert(!same_ignoring_case(name, "DSB"@)) by {
            if same_ignoring_case(name, "DSB"@) {
                assert(upper_char(name[2]) == 'B');
            }
        }
    }
}

/// The assignment of a list of values to `name`, whose token stands just
/// before `pos`. A name that has its values already is refused.
pub open spec fn assignment(
    tokens: TokenSeq,
    pos: int,
    name: Seq<char>,
    references: ReferenceMap,
) -> Parsed<Effect> {
    let sign = required_assign(tokens, skip_space(tokens, pos));
    match sign.outcome {
        Err(fault) => failed(sign.next, fault),
        Ok(_) => {
            let list = values_from(tokens, skip_space(tokens, sign.next), None);
            match list.outcome {
                Err(fault) => failed(list.next, fault),
                Ok(values) => {
                    if references.contains_key(name) {
                        failed(list.next, AstGeneratorFault::ReferenceAlreadyDefined(name))
                    } else {
                        parsed(list.next, Effect::Assign(name, values))
                    }
                },
            }
        },
    }
}

/// The instruction `position` at `token_index`, with its operand if it takes
/// one. A branch takes no word.
pub open spec fn code_block(
    tokens: TokenSeq,
    token_index: int,
    position: int,
    references: ReferenceMap,
) -> Parsed<Effect> {
    if position < 0 || position >= 56 {
        failed(token_index + 1, AstGeneratorFault::InternalError)
    } else if is_operandless(position) {
        parsed(token_index + 1, Effect::Node(AstView::InstrImplied(position)))
    } else {
        let gap = required_space(tokens, token_index + 1);
        match gap.outcome {
            Err(fault) => failed(gap.next, fault),
            Ok(_) => {
                let value = operand(tokens, gap.next, references);
                match value.outcome {
                    Err(fault) => failed(value.next, fault),
                    Ok(info) => {
                        if is_branch(position) && info.value is Word {
                            failed(
                                value.next,
                                syntax_fault(tokens, token_index, "Relative number or branch name expected"@),
                            )
                        } else {
                            parsed(value.next, Effect::Node(AstView::Instr(position, info)))
                        }
                    },
                }
            },
        }
    }
}

/// The statement that starts with the token at `pos`.
pub open spec fn statement(tokens: TokenSeq, pos: int, references: ReferenceMap) -> Parsed<Effect> {
    match tokens[pos].token {
        TokenView::Instr(position) => code_block(tokens, pos, position, references),
        TokenView::Keyword(name) => assignment(tokens, pos + 1, name, references),
        TokenView::Directive(name) => directive_statement(tokens, pos, name),
        TokenView::Comment(_) => parsed(pos + 1, Effect::Nothing),
        TokenView::NewLine(_) => parsed(pos + 1, Effect::Nothing),
        TokenView::Space(_) => parsed(pos + 1, Effect::Nothing),
        TokenView::Branch(name) => parsed(pos + 1, Effect::Node(AstView::Branch(name, BranchType::Generic))),
        TokenView::BranchNext(name) => parsed(pos + 1, Effect::Node(AstView::Branch(name, BranchType::Local))),
        TokenView::Byte(_) => failed(pos + 1, syntax_fault(tokens, pos, "Number not expected"@)),
        TokenView::Word(_) => failed(pos + 1, syntax_fault(tokens, pos, "Number not expected"@)),
        TokenView::OpenParenthesis => failed(pos + 1, syntax_fault(tokens, pos, "'(' not expected"@)),
        TokenView::CloseParenthesis => failed(pos + 1, syntax_fault(tokens, pos, "')' not expected"@)),
        TokenView::Sharp => failed(pos + 1, syntax_fault(tokens, pos, "'#' not expected"@)),
        TokenView::Assign => failed(pos + 1, syntax_fault(tokens, pos, "'=' not expected"@)),
        TokenView::Comma => failed(pos + 1, syntax_fault(tokens, pos, "',' not expected"@)),
        TokenView::String(_) => failed(pos + 1, syntax_fault(tokens, pos, "String not expected"@)),
        TokenView::End => parsed(pos + 1, Effect::Stop),
    }
}

/// How many tokens stand at `pos` and behind it.
pub open spec fn remaining(tokens: TokenSeq, pos: int) -> nat {
    if pos < tokens.len() {
        (tokens.len() - pos) as nat
    } else {
        0
    }
}

/// Why the resolver hands control back without a fault.
pub enum Pause {
    /// The end marker or the end of the tokens was reached.
    Finished,
    /// The file `name`, asked for by the directive at `token_index`, is to
    /// be read and spliced in before the run goes on.
    Include { name: Seq<char>, token_index: int },
}

/// The state in which a run of the resolver ends.
pub struct Resolution {
    pub next: int,
    pub nodes: Seq<AstInfoView>,
    pub references: ReferenceMap,
    pub outcome: Result<Pause, AstGeneratorFault>,
}

/// The run of the resolver from the token at `pos` on, with the nodes and
/// constants gathered before: statement after statement, up to the end
/// marker, the first fault, or the first file to splice in.
pub open spec fn resolve(
    tokens: TokenSeq,
    pos: int,
    nodes: Seq<AstInfoView>,
    references: ReferenceMap,
) -> Resolution
    decreases remaining(tokens, pos),
{
    if pos < 0 || pos >= tokens.len() {
        Resolution { next: pos, nodes, references, outcome: Ok(Pause::Finished) }
    } else {
        proof {
            lemma_statement_advances(tokens, pos, references);
        }
        let step = statement(tokens, pos, references);
        match step.outcome {
            Err(fault) => Resolution { next: step.next, nodes, references, outcome: Err(fault) },
            Ok(Effect::Stop) => Resolution { next: step.next, nodes, references, outcome: Ok(Pause::Finished) },
            Ok(Effect::Nothing) => resolve(tokens, step.next, nodes, references),
            Ok(Effect::Node(ast)) => resolve(tokens, step.next, nodes.push(located(tokens[pos], ast)), references),
            Ok(Effect::Assign(name, values)) => resolve(tokens, step.next, nodes, references.insert(name, values)),
            Ok(Effect::Include(value)) => match value {
                DirectiveValueView::String(name) => Resolution {
                    next: step.next,
                    nodes,
                    references,
                    outcome: Ok(Pause::Include { name, token_index: pos }),
                },
                _ => Resolution {
                    next: step.next,
                    nodes,
                    references,
                    outcome: Err(syntax_fault(tokens, pos, "Path expected as a string"@)),
                },
            },
        }
    }
}

/// A list ends at or behind the place where it starts.
pub proof fn lemma_value_list_advances(
    tokens: TokenSeq,
    pos: int,
    filter: Option<Seq<DirectiveType>>,
    found: bool,
    values: Seq<DirectiveValueView>,
)
    ensures
        value_list(tokens, pos, filter, found, values).next >= pos,
    decreases tokens.len() - pos,
{
    if 0 <= pos < tokens.len() {
        let token = tokens[pos].token;
        if ends_list(token) {
        } else if token is Space {
            lemma_value_list_advances(tokens, pos + 1, filter, found, values);
        } else if found {
            if token is Comma {
                lemma_value_list_advances(tokens, pos + 1, filter, false, values);
            }
        } else {
            match listed_value(token) {
                Some(value) => {
                    if allowed(filter, value.kind()) {
                        lemma_value_list_advances(tokens, pos + 1, filter, true, values.push(value));
                    }
                },
                None => {},
            }
        }
    }
}

/// An operand ends at or behind the place where it starts.
pub proof fn lemma_operand_advances(tokens: TokenSeq, pos: int, references: ReferenceMap)
    ensures
        operand(tokens, pos, references).next >= pos,
{
}

/// Every statement passes over at least its first token.
pub proof fn lemma_statement_advances(tokens: TokenSeq, pos: int, references: ReferenceMap)
    requires
        0 <= pos < tokens.len(),
    ensures
        statement(tokens, pos, references).next > pos,
{
    match tokens[pos].token {
        TokenView::Instr(position) => {
            lemma_operand_advances(tokens, required_space(tokens, pos + 1).next, references);
        },
        TokenView::Keyword(name) => {
            let sign = required_assign(tokens, skip_space(tokens, pos + 1));
            lemma_value_list_advances(
                tokens,
                skip_space(tokens, skip_space(tokens, sign.next)),
                None,
                false,
                Seq::empty(),
            );
        },
        TokenView::Directive(name) => {
            match system_directive(name) {
                None => {},
                Some(info) => {
                    lemma_value_list_advances(
                        tokens,
                        skip_space(tokens, pos + 1),
                        Some(info.values),
                        false,
                        Seq::empty(),
                    );
                },
            }
        },
        _ => {},
    }
}

/// The tokens `inserted` spliced into `tokens` before the token at `at`.
pub open spec fn spliced(tokens: TokenSeq, at: int, inserted: TokenSeq) -> TokenSeq {
    tokens.take(at) + inserted + tokens.skip(at)
}

/// Splicing in one token more, before those spliced in already.
pub proof fn lemma_splice_insert(tokens: TokenSeq, at: int, inserted: TokenSeq, count: int)
    requires
        0 <= at <= tokens.len(),
        0 < count <= inserted.len(),
    ensures
        spliced(tokens, at, inserted.skip(count)).insert(at, inserted[count - 1]) == spliced(
            tokens,
            at,
            inserted.skip(count - 1),
        ),
{
    assert(spliced(tokens, at, inserted.skip(count)).insert(at, inserted[count - 1]) =~= spliced(
        tokens,
        at,
        inserted.skip(count - 1),
    ));
}

/// A constant keeps its values to the end of the run: no statement takes a
/// name out of the constants or gives it other values.
pub proof fn lemma_constants_stay(
    tokens: TokenSeq,
    pos: int,
    nodes: Seq<AstInfoView>,
    references: ReferenceMap,
    name: Seq<char>,
)
    requires
        references.contains_key(name),
    ensures
        resolve(tokens, pos, nodes, references).references.contains_key(name),
        resolve(tokens, pos, nodes, references).references[name] == references[name],
    decreases remaining(tokens, pos),
{
    if 0 <= pos < tokens.len() {
        lemma_statement_advances(tokens, pos, references);
        let step = statement(tokens, pos, references);
        match step.outcome {
            Ok(Effect::Nothing) => {
                lemma_constants_stay(tokens, step.next, nodes, references, name);
            },
            Ok(Effect::Node(ast)) => {
                lemma_constants_stay(tokens, step.next, nodes.push(located(tokens[pos], ast)), references, name);
            },
            Ok(Effect::Assign(other, values)) => {
                lemma_constants_stay(tokens, step.next, nodes, references.insert(other, values), name);
            },
            _ => {},
        }
    }
}

/// A name is assigned at most once: the assignment to a name that has its
/// values already makes the run fail at that statement. If nothing else is
/// wrong with the statement, the fault names the constant.
pub proof fn lemma_reassignment_fails(
    tokens: TokenSeq,
    pos: int,
    nodes: Seq<AstInfoView>,
    references: ReferenceMap,
    name: Seq<char>,
)
    requires
        0 <= pos < tokens.len(),
        tokens[pos].token == TokenView::Keyword(name),
        references.contains_key(name),
    ensures
        resolve(tokens, pos, nodes, references).outcome is Err,
        resolve(tokens, pos, nodes, references).nodes == nodes,
        resolve(tokens, pos, nodes, references).references == references,
        assignment(tokens, pos + 1, name, Map::empty()).outcome is Ok ==> resolve(
            tokens,
            pos,
            nodes,
            references,
        ).outcome == Err::<Pause, AstGeneratorFault>(AstGeneratorFault::ReferenceAlreadyDefined(name)),
{
}

/// Two assignments to one name, one behind the other, make the run fail:
/// the first records the name, the second is refused.
pub proof fn lemma_repeated_assignment_fails(
    tokens: TokenSeq,
    first: int,
    nodes: Seq<AstInfoView>,
    references: ReferenceMap,
    name: Seq<char>,
)
    requires
        0 <= first < tokens.len(),
        tokens[first].token == TokenView::Keyword(name),
        statement(tokens, first, references).outcome is Ok,
        statement(tokens, first, references).next < tokens.len(),
        tokens[statement(tokens, first, references).next].token == TokenView::Keyword(name),
    ensures
        resolve(tokens, first, nodes, references).outcome is Err,
{
    lemma_statement_advances(tokens, first, references);
    let step = statement(tokens, first, references);
    match step.outcome {
        Ok(Effect::Assign(assigned, values)) => {
            lemma_reassignment_fails(tokens, step.next, nodes, references.insert(assigned, values), name);
        },
        _ => {},
    }
}

/// The first assignment to a name records its values, in the order in
/// which they stand.
pub proof fn lemma_assignment_records(
    tokens: TokenSeq,
    pos: int,
    references: ReferenceMap,
    name: Seq<char>,
)
    requires
        0 <= pos < tokens.len(),
        tokens[pos].token == TokenView::Keyword(name),
        !references.contains_key(name),
        assignment(tokens, pos + 1, name, Map::empty()).outcome is Ok,
    ensures
        statement(tokens, pos, references).outcome == Ok::<Effect, AstGeneratorFault>(
            Effect::Assign(
                name,
                values_from(
                    tokens,
                    skip_space(tokens, required_assign(tokens, skip_space(tokens, pos + 1)).next),
                    None,
                ).outcome->Ok_0,
            ),
        ),
{
}

/// A keyword that names a constant of one number reads, as the value of an
/// operand, as that number with its width: as if the number stood there.
pub proof fn lemma_constant_reads_as_number(name: Seq<char>, references: ReferenceMap)
    requires
        references.contains_key(name),
        references[name].len() == 1,
    ensures
        references[name][0] matches DirectiveValueView::Byte(number) ==> operand_value(
            TokenView::Keyword(name),
            references,
        ) == Ok::<InstrValueView, Seq<char>>(InstrValueView::Byte(number)) && operand_value(
            TokenView::Keyword(name),
            references,
        ) == operand_value(TokenView::Byte(number), references),
        references[name][0] matches DirectiveValueView::Word(number) ==> operand_value(
            TokenView::Keyword(name),
            references,
        ) == Ok::<InstrValueView, Seq<char>>(InstrValueView::Word(number)) && operand_value(
            TokenView::Keyword(name),
            references,
        ) == operand_value(TokenView::Word(number), references),
{
}

/// An immediate operand that names a constant of one byte is that byte:
/// `#name`, with the end of the line behind it, reads as an immediate
/// operand of one byte without register.
pub proof fn lemma_immediate_constant(
    tokens: TokenSeq,
    pos: int,
    references: ReferenceMap,
    name: Seq<char>,
    number: u8,
)
    requires
        0 <= pos,
        pos + 2 < tokens.len(),
        tokens[pos].token is Sharp,
        tokens[pos + 1].token == TokenView::Keyword(name),
        ends_list(tokens[pos + 2].token),
        references.contains_key(name),
        references[name] == seq![DirectiveValueView::Byte(number)],
    ensures
        operand(tokens, pos, references) == parsed(
            pos + 2,
            InstrInfoView {
                value: InstrValueView::Byte(number),
                is_immediate: true,
                in_parenthesis: false,
                register: InstrInfoRegister::NoRegister,
            },
        ),
{
}

/// A space token at `pos`, which must be there.
pub open spec fn required_space(tokens: TokenSeq, pos: int) -> Parsed<()> {
    if pos < 0 || pos >= tokens.len() {
        failed(pos, AstGeneratorFault::OutOfScope)
    } else if tokens[pos].token is Space {
        parsed(pos + 1, ())
    } else {
        failed(pos + 1, syntax_fault(tokens, pos, "Expected space"@))
    }
}

/// An `=` token at `pos`, which must be there.
pub open spec fn required_assign(tokens: TokenSeq, pos: int) -> Parsed<()> {
    if pos < 0 || pos >= tokens.len() {
        failed(pos, AstGeneratorFault::OutOfScope)
    } else if tokens[pos].token is Assign {
        parsed(pos + 1, ())
    } else {
        failed(pos + 1, syntax_fault(tokens, pos, "Expected assign"@))
    }
}

/// The name that the token at `pos` holds: a keyword or a local label.
pub open spec fn required_name(tokens: TokenSeq, pos: int) -> Parsed<Seq<char>> {
    if pos < 0 || pos >= tokens.len() {
        failed(pos, AstGeneratorFault::OutOfScope)
    } else {
        match tokens[pos].token {
            TokenView::Keyword(text) => parsed(pos + 1, text),
            TokenView::BranchNext(text) => parsed(pos + 1, text),
            _ => failed(pos + 1, syntax_fault(tokens, pos, "Expected text"@)),
        }
    }
}

} // verus!
