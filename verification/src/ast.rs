//! The resolver: tokens in, semantic nodes out.

use vstd::prelude::*;
use vstd::string::StringExecFns;
use std::path::PathBuf;
use crate::context::{Context, located, path_from_text, path_of_text, resolved_path};
use crate::directive::{
    DirectiveEnum, DirectiveType, DirectiveValue, DirectiveValueView, DirectiveVariableSize,
    accepts_kind, find_directive,
};
use crate::grammar::{
    Effect, Parsed, Pause, assignment, closing, closing_register, code_block, directive_statement,
    kinds_of, lemma_splice_insert, lemma_statement_advances, opening, operand, operand_value,
    parsed, reference_map, register_named, remaining, required_assign, required_name,
    required_space, resolve, skip_space, spliced, statement, syntax_fault, value_list, values_from,
};
use crate::opcode::{is_branch_instr, is_operandless_instr};
use crate::parser::{ParseError, Parser, Token, TokenInfoView, TokenType, lex_fails};
use crate::scan::{LINE_FEED, lemma_lex_ends_with_marker, lex};
use crate::tool::{decimal_text, eq_ignoring_case};

verus! {

/// The operand of an instruction before its addressing mode is fixed.
#[derive(Debug, PartialEq)]
pub enum InstrValue {
    Byte(u8),
    Word(u16),
    Reference(String),
    LocalReference(String),
}

/// An `InstrValue` with its name as a character sequence.
pub enum InstrValueView {
    Byte(u8),
    Word(u16),
    Reference(Seq<char>),
    LocalReference(Seq<char>),
}

/// The index register of an operand.
#[derive(Debug, PartialEq, Eq, Copy, Clone, Structural)]
pub enum InstrInfoRegister {
    NoRegister,
    X,
    Y,
}

/// An operand as written: its value, and the marks around it.
#[derive(Debug, PartialEq)]
pub struct InstrInfo {
    pub value: InstrValue,
    pub is_immediate: bool,
    pub in_parenthesis: bool,
    pub register: InstrInfoRegister,
}

/// An `InstrInfo` as plain values.
pub struct InstrInfoView {
    pub value: InstrValueView,
    pub is_immediate: bool,
    pub in_parenthesis: bool,
    pub register: InstrInfoRegister,
}

/// The scope of a label.
#[derive(Debug, PartialEq, Eq, Copy, Clone, Structural)]
pub enum BranchType {
    Generic,
    Local,
}

/// A semantic node.
#[derive(Debug)]
pub enum Ast {
    InstrImplied(usize),
    Instr(usize, InstrInfo),
    Branch(String, BranchType),
    Directive(DirectiveEnum, Vec<DirectiveValue>),
}

/// An `Ast` as plain values.
pub enum AstView {
    InstrImplied(int),
    Instr(int, InstrInfoView),
    Branch(Seq<char>, BranchType),
    Directive(DirectiveEnum, Seq<DirectiveValueView>),
}

/// A node and where the token that began it stands.
#[derive(Debug)]
pub struct AstInfo {
    pub line: usize,
    pub column: usize,
    pub ast: Ast,
    pub end: usize,
}

/// An `AstInfo` as plain values.
pub struct AstInfoView {
    pub line: int,
    pub column: int,
    pub ast: AstView,
    pub end: int,
}

/// Why the resolver stopped.
#[derive(Debug)]
pub enum AstGeneratorError {
    SyntaxIssue { line: usize, column: usize, end: usize, message: String },
    OutOfScope,
    InternalError,
    ReferenceAlreadyDefined(String),
}

/// An `AstGeneratorError` as plain values.
pub enum AstGeneratorFault {
    SyntaxIssue { line: int, column: int, end: int, message: Seq<char> },
    OutOfScope,
    InternalError,
    ReferenceAlreadyDefined(Seq<char>),
}

impl View for InstrValue {
    type V = InstrValueView;

    open spec fn view(&self) -> InstrValueView {
        match self {
            InstrValue::Byte(number) => InstrValueView::Byte(*number),
            InstrValue::Word(number) => InstrValueView::Word(*number),
            InstrValue::Reference(name) => InstrValueView::Reference(name@),
            InstrValue::LocalReference(name) => InstrValueView::LocalReference(name@),
        }
    }
}

impl View for InstrInfo {
    type V = InstrInfoView;

    open spec fn view(&self) -> InstrInfoView {
        InstrInfoView {
            value: self.value@,
            is_immediate: self.is_immediate,
            in_parenthesis: self.in_parenthesis,
            register: self.register,
        }
    }
}

impl View for Ast {
    type V = AstView;

    open spec fn view(&self) -> AstView {
        match self {
            Ast::InstrImplied(position) => AstView::InstrImplied(*position as int),
            Ast::Instr(position, info) => AstView::Instr(*position as int, info@),
            Ast::Branch(name, scope) => AstView::Branch(name@, *scope),
            Ast::Directive(directive, values) => AstView::Directive(*directive, values.deep_view()),
        }
    }
}

impl View for AstInfo {
    type V = AstInfoView;

    open spec fn view(&self) -> AstInfoView {
        AstInfoView {
            line: self.line as int,
            column: self.column as int,
            ast: self.ast@,
            end: self.end as int,
        }
    }
}

impl DeepView for AstInfo {
    type V = AstInfoView;

    open spec fn deep_view(&self) -> AstInfoView {
        self@
    }
}

impl View for AstGeneratorError {
    type V = AstGeneratorFault;

    open spec fn view(&self) -> AstGeneratorFault {
        match self {
            AstGeneratorError::SyntaxIssue { line, column, end, message } => AstGeneratorFault::SyntaxIssue {
                line: *line as int,
                column: *column as int,
                end: *end as int,
                message: message@,
            },
            AstGeneratorError::OutOfScope => AstGeneratorFault::OutOfScope,
            AstGeneratorError::InternalError => AstGeneratorFault::InternalError,
            AstGeneratorError::ReferenceAlreadyDefined(name) => AstGeneratorFault::ReferenceAlreadyDefined(name@),
        }
    }
}

/// Why the resolver handed control back.
#[derive(Debug)]
pub enum AstStatus {
    /// Every token was read.
    Finished,
    /// The file `name`, which the file `file_id` asks for, is to be read and
    /// handed to `process_include`; after that the run goes on. It has been
    /// recorded under `path`.
    Include { path: PathBuf, name: String, file_id: usize },
}

/// The resolver's cursor over the tokens of a `Context`.
#[derive(Debug)]
pub struct AstGenerator {
    pub index: usize,
    pub size: usize,
    pub include_asm: Option<DirectiveValue>,
}

/// Whether the resolver left everything but the nodes and the constants of
/// a context as it was.
pub open spec fn kept_sources(before: Context, after: Context) -> bool {
    &&& after.tokens == before.tokens
    &&& after.target == before.target
    &&& after.files == before.files
    &&& after.work_directory == before.work_directory
    &&& after.silent == before.silent
    &&& after.code_files == before.code_files
}

/// Whether a resolver and a context stand, after the statement at
/// `token_index`, as the statement's outcome `step` says.
pub open spec fn stepped(
    before: AstGenerator,
    context_before: Context,
    after: AstGenerator,
    context_after: Context,
    token_index: int,
    step: Parsed<Effect>,
    result: Result<(), AstGeneratorError>,
) -> bool {
    let tokens = context_before.tokens.deep_view();
    let nodes = context_before.asts.deep_view();
    let references = reference_map(context_before.references@);
    &&& after.index == step.next
    &&& after.size == before.size
    &&& kept_sources(context_before, context_after)
    &&& match step.outcome {
        Err(fault) => {
            &&& fails_with(result, fault)
            &&& context_after.asts.deep_view() == nodes
            &&& reference_map(context_after.references@) == references
            &&& after.include_asm == before.include_asm
        },
        Ok(Effect::Node(ast)) => {
            &&& result is Ok
            &&& context_after.asts.deep_view() == nodes.push(located(tokens[token_index], ast))
            &&& reference_map(context_after.references@) == references
            &&& after.include_asm == before.include_asm
        },
        Ok(Effect::Assign(name, values)) => {
            &&& result is Ok
            &&& context_after.asts.deep_view() == nodes
            &&& reference_map(context_after.references@) == references.insert(name, values)
            &&& after.include_asm == before.include_asm
        },
        Ok(Effect::Include(value)) => {
            &&& result is Ok
            &&& context_after.asts.deep_view() == nodes
            &&& reference_map(context_after.references@) == references
            &&& after.include_asm matches Some(asked) && asked@ == value
        },
        Ok(_) => {
            &&& result is Ok
            &&& context_after.asts.deep_view() == nodes
            &&& reference_map(context_after.references@) == references
            &&& after.include_asm == before.include_asm
        },
    }
}

/// Whether a resolver and a context stand, after a run from `before` and
/// `context_before`, as `resolve` says, with `result` as the run's outcome.
/// Where a file is to be spliced in, the name that the directive spells and
/// the file that holds the directive are handed out, and the file has been
/// recorded with the context under the path that is handed out: the name
/// taken relative to the directory of the file that holds the directive.
pub open spec fn resolved(
    before: AstGenerator,
    context_before: Context,
    after: AstGenerator,
    context_after: Context,
    result: Result<AstStatus, AstGeneratorError>,
) -> bool {
    let run = resolve(
        context_before.tokens.deep_view(),
        before.index as int,
        context_before.asts.deep_view(),
        reference_map(context_before.references@),
    );
    &&& after.index == run.next
    &&& after.size == context_before.tokens@.len()
    &&& after.include_asm is None
    &&& context_after.asts.deep_view() == run.nodes
    &&& reference_map(context_after.references@) == run.references
    &&& context_after.tokens == context_before.tokens
    &&& context_after.target == context_before.target
    &&& context_after.work_directory == context_before.work_directory
    &&& context_after.silent == context_before.silent
    &&& match run.outcome {
        Err(fault) => {
            &&& fails_with(result, fault)
            &&& context_after.files == context_before.files
            &&& context_after.code_files == context_before.code_files
        },
        Ok(Pause::Finished) => {
            &&& result matches Ok(AstStatus::Finished)
            &&& context_after.files == context_before.files
            &&& context_after.code_files == context_before.code_files
        },
        Ok(Pause::Include { name, token_index }) => {
            &&& result matches Ok(AstStatus::Include { path, name: asked, file_id })
            &&& asked@ == name
            &&& file_id == context_before.tokens.deep_view()[token_index].file_id
            &&& path == resolved_path(
                context_before.files@,
                context_before.work_directory,
                file_id as int,
                path_of_text(name),
            )
            &&& context_after.files@ == context_before.files@.push(path)
            &&& context_after.code_files@.len() == context_before.code_files@.len() + 1
            &&& context_after.code_files@.drop_last() == context_before.code_files@
            &&& context_after.code_files@.last().path == path
            &&& context_after.code_files@.last().includes@.len() == 0
            &&& context_after.code_files@.last().data@.len() == 0
        },
    }
}

/// Whether a context stands, after the bytes `code` of the file recorded
/// last were handed in, with those bytes in the file's record and all else
/// but the tokens as before.
pub open spec fn recorded(before: Context, after: Context, code: Seq<u8>) -> bool {
    &&& after.target == before.target
    &&& after.asts == before.asts
    &&& after.references == before.references
    &&& after.files == before.files
    &&& after.work_directory == before.work_directory
    &&& after.silent == before.silent
    &&& after.code_files@.len() == before.code_files@.len()
    &&& after.code_files@.drop_last() == before.code_files@.drop_last()
    &&& after.code_files@.last().path == before.code_files@.last().path
    &&& after.code_files@.last().includes == before.code_files@.last().includes
    &&& after.code_files@.last().data@ == code
}

impl AstGeneratorError {
    /// A syntax error located where the token at `token_index` stands.
    pub fn syntax_issue(context: &Context, token_index: usize, message: String) -> (error: Self)
        requires
            token_index < context.tokens@.len(),
        ensures
            error@ == syntax_fault(context.tokens.deep_view(), token_index as int, message@),
    {
        let token_info = &context.tokens[token_index];
        AstGeneratorError::SyntaxIssue {
            column: token_info.column,
            end: token_info.end,
            line: token_info.line,
            message,
        }
    }
}

impl AstGenerator {
    /// Whether the cursor stands within the tokens of `context`, all of which
    /// it may read.
    pub open spec fn wf(&self, context: &Context) -> bool {
        self.index <= self.size && self.size == context.tokens@.len()
    }

    /// A resolver at the start, with no tokens to read yet.
    pub fn new() -> (generator: Self)
        ensures
            generator.index == 0,
            generator.size == 0,
            generator.include_asm is None,
    {
        Self { index: 0, size: 0, include_asm: None }
    }

    /// Whether a token stands under the cursor.
    fn empty_check(&self) -> (result: Result<(), AstGeneratorError>)
        ensures
            self.index >= self.size ==> fails_with(result, AstGeneratorFault::OutOfScope),
            self.index < self.size ==> result is Ok,
    {
        if self.index >= self.size {
            Err(AstGeneratorError::OutOfScope)
        } else {
            Ok(())
        }
    }

    /// Passes over the token under the cursor and hands out its index.
    fn eat(&mut self) -> (result: Result<usize, AstGeneratorError>)
        ensures
            final(self).size == old(self).size,
            final(self).include_asm == old(self).include_asm,
            old(self).index >= old(self).size ==> final(self).index == old(self).index && fails_with(
                result,
                AstGeneratorFault::OutOfScope,
            ),
            old(self).index < old(self).size ==> final(self).index == old(self).index + 1
                && result == Ok::<usize, AstGeneratorError>(old(self).index),
    {
        self.empty_check()?;
        self.index = self.index + 1;
        Ok(self.index - 1)
    }

    /// The index of the token under the cursor.
    fn peek(&self) -> (result: Result<usize, AstGeneratorError>)
        ensures
            self.index >= self.size ==> fails_with(result, AstGeneratorFault::OutOfScope),
            self.index < self.size ==> result == Ok::<usize, AstGeneratorError>(self.index),
    {
        self.empty_check()?;
        Ok(self.index)
    }

    /// Passes over the token under the cursor, which must be of the kind `token_type`; if it is
    /// of another, `error` is the fault.
    fn eat_expected(
        &mut self,
        context: &Context,
        token_type: TokenType,
        error: AstGeneratorError,
    ) -> (result: Result<(), AstGeneratorError>)
        requires
            old(self).wf(context),
        ensures
            final(self).size == old(self).size,
            final(self).include_asm == old(self).include_asm,
            old(self).index >= old(self).size ==> final(self).index == old(self).index && fails_with(
                result,
                AstGeneratorFault::OutOfScope,
            ),
            old(self).index < old(self).size ==> final(self).index == old(self).index + 1,
            old(self).index < old(self).size && context.tokens.deep_view()[old(
                self,
            ).index as int].token.kind() == token_type ==> result is Ok,
            old(self).index < old(self).size && context.tokens.deep_view()[old(
                self,
            ).index as int].token.kind() != token_type ==> result == Err::<(), AstGeneratorError>(error),
    {
        let token_index = self.eat()?;
        let token = &context.tokens[token_index];
        if token.token.token_type() != token_type {
            return Err(error);
        }
        Ok(())
    }

    /// Passes over the token under the cursor, which must be a space.
    fn eat_space(&mut self, context: &Context) -> (result: Result<(), AstGeneratorError>)
        requires
            old(self).wf(context),
        ensures
            final(self).size == old(self).size,
            final(self).include_asm == old(self).include_asm,
            final(self).index == required_space(context.tokens.deep_view(), old(self).index as int).next,
            match required_space(context.tokens.deep_view(), old(self).index as int).outcome {
                Ok(_) => result is Ok,
                Err(fault) => fails_with(result, fault),
            },
    {
        let token_index = self.eat()?;
        let token = &context.tokens[token_index];
        match token.token {
            Token::Space(_) => Ok(()),
            _ => Err(AstGeneratorError::syntax_issue(context, token_index, "Expected space".to_owned())),
        }
    }

    /// Passes over the token under the cursor if it is a space.
    fn cleanup_space(&mut self, context: &Context) -> (result: Result<(), AstGeneratorError>)
        requires
            old(self).wf(context),
        ensures
            result is Ok,
            final(self).size == old(self).size,
            final(self).include_asm == old(self).include_asm,
            final(self).index == skip_space(context.tokens.deep_view(), old(self).index as int),
            final(self).wf(context),
    {
        if let Ok(token_index) = self.peek() {
            let token = &context.tokens[token_index];
            if let Token::Space(_) = token.token {
                let _ = self.eat();
            }
        }
        Ok(())
    }

    /// Passes over the token under the cursor, which must be a `=`.
    fn eat_assign(&mut self, context: &Context) -> (result: Result<(), AstGeneratorError>)
        requires
            old(self).wf(context),
        ensures
            final(self).size == old(self).size,
            final(self).include_asm == old(self).include_asm,
            final(self).index == required_assign(context.tokens.deep_view(), old(self).index as int).next,
            match required_assign(context.tokens.deep_view(), old(self).index as int).outcome {
                Ok(_) => result is Ok,
                Err(fault) => fails_with(result, fault),
            },
    {
        let token_index = self.eat()?;
        let token = &context.tokens[token_index];
        match token.token {
            Token::Assign => Ok(()),
            _ => Err(AstGeneratorError::syntax_issue(context, token_index, "Expected assign".to_owned())),
        }
    }

    /// Reads the name that the token under the cursor holds: a keyword or a
    /// local label.
    pub fn eat_text(&mut self, context: &Context) -> (result: Result<String, AstGeneratorError>)
        requires
            old(self).wf(context),
        ensures
            final(self).size == old(self).size,
            final(self).include_asm == old(self).include_asm,
            final(self).index == required_name(context.tokens.deep_view(), old(self).index as int).next,
            match required_name(context.tokens.deep_view(), old(self).index as int).outcome {
                Ok(text) => result matches Ok(found) && found@ == text,
                Err(fault) => fails_with(result, fault),
            },
    {
        let token_index = self.eat()?;
        let token = &context.tokens[token_index];
        match &token.token {
            Token::Keyword(text) => Ok(text.clone()),
            Token::BranchNext(text) => Ok(text.clone()),
            _ => Err(AstGeneratorError::syntax_issue(context, token_index, "Expected text".to_owned())),
        }
    }

    /// Reads a comma-separated list of values from the cursor on. With a
    /// `filter`, only references and the kinds it lists may stand in the
    /// list.
    fn parse_list(
        &mut self,
        context: &Context,
        filter: Option<&[DirectiveType]>,
    ) -> (result: Result<Vec<DirectiveValue>, AstGeneratorError>)
        requires
            old(self).wf(context),
        ensures
            final(self).wf(context),
            final(self).include_asm == old(self).include_asm,
            final(self).index == values_from(
                context.tokens.deep_view(),
                old(self).index as int,
                kinds_of(filter),
            ).next,
            match values_from(context.tokens.deep_view(), old(self).index as int, kinds_of(filter)).outcome {
                Ok(values) => result matches Ok(found) && found.deep_view() == values,
                Err(fault) => fails_with(result, fault),
            },
    {
        let mut token_found = false;
        self.cleanup_space(context)?;
        let mut values: Vec<DirectiveValue> = Vec::new();
        let ghost tokens = context.tokens.deep_view();
        let ghost goal = values_from(tokens, old(self).index as int, kinds_of(filter));
        assert(values.deep_view() =~= Seq::empty());

        while self.size > self.index
            invariant
                self.wf(context),
                self.include_asm == old(self).include_asm,
                tokens == context.tokens.deep_view(),
                goal == values_from(tokens, old(self).index as int, kinds_of(filter)),
                value_list(tokens, self.index as int, kinds_of(filter), token_found, values.deep_view()) == goal,
            decreases self.size - self.index,
        {
            let value_index = self.eat()?;
            let ghost before = values.deep_view();
            match &context.tokens[value_index].token {
                Token::NewLine(_) => {
                    return Ok(values);
                },
                Token::Comment(_) => {
                    return Ok(values);
                },
                Token::End => {
                    return Ok(values);
                },
                Token::Space(_) => {},
                Token::Comma => {
                    if token_found {
                        token_found = false;
                    } else {
                        return Err(
                            AstGeneratorError::syntax_issue(context, value_index, "',' not expected".to_owned()),
                        );
                    }
                },
                token => {
                    if token_found {
                        return Err(
                            AstGeneratorError::syntax_issue(context, value_index, "Unexpected syntax".to_owned()),
                        );
                    }
                    let value = match token {
                        Token::Keyword(keyword) => DirectiveValue::Reference(keyword.clone()),
                        Token::Word(number) => DirectiveValue::Word(*number),
                        Token::Byte(number) => DirectiveValue::Byte(*number),
                        Token::String(string) => DirectiveValue::String(string.clone()),
                        _ => {
                            return Err(
                                AstGeneratorError::syntax_issue(
                                    context,
                                    value_index,
                                    "Unexpected syntax".to_owned(),
                                ),
                            );
                        },
                    };
                    let accepted = match filter {
                        Some(kinds) => accepts_kind(kinds, value.directive_type()),
                        None => true,
                    };
                    if !accepted {
                        return Err(
                            AstGeneratorError::syntax_issue(
                                context,
                                value_index,
                                "Unexpected value type".to_owned(),
                            ),
                        );
                    }
                    values.push(value);
                    token_found = true;
                    assert(values.deep_view() =~= before.push(value@));
                },
            }
        }
        Ok(values)
    }

    /// Reads the values of the directive at `token_index` and makes its node,
    /// or notes the file that it asks for.
    fn generate_directive(
        &mut self,
        context: &mut Context,
        token_index: usize,
        directive_name: String,
    ) -> (result: Result<(), AstGeneratorError>)
        requires
            old(self).wf(old(context)),
            token_index + 1 == old(self).index,
        ensures
            stepped(
                *old(self),
                *old(context),
                *final(self),
                *final(context),
                token_index as int,
                directive_statement(old(context).tokens.deep_view(), token_index as int, directive_name@),
                result,
            ),
    {
        let directive = match find_directive(directive_name.as_str()) {
            Some(directive) => directive,
            None => {
                return Err(
                    AstGeneratorError::syntax_issue(
                        context,
                        token_index,
                        "Unsupported compiler configuration".to_owned(),
                    ),
                );
            },
        };
        let values = self.parse_list(context, Some(directive.values))?;
        match directive.size {
            DirectiveVariableSize::NoValue => {
                if values.len() != 0 {
                    return Err(
                        AstGeneratorError::syntax_issue(context, token_index, "No value expected".to_owned()),
                    );
                }
            },
            DirectiveVariableSize::Min(min) => {
                if values.len() < min {
                    let mut message = "Minimum ".to_owned();
                    message.append(decimal_text(min).as_str());
                    message.append(" value(s) expected");
                    return Err(AstGeneratorError::syntax_issue(context, token_index, message));
                }
            },
            DirectiveVariableSize::Length(length) => {
                if values.len() != length {
                    let mut message = "Expected ".to_owned();
                    message.append(decimal_text(length).as_str());
                    message.append(" value(s)");
                    return Err(AstGeneratorError::syntax_issue(context, token_index, message));
                }
            },
            DirectiveVariableSize::Between(least, most) => {
                if values.len() < least || values.len() > most {
                    let mut message = "Expected ".to_owned();
                    message.append(decimal_text(least).as_str());
                    message.append(" to ");
                    message.append(decimal_text(most).as_str());
                    message.append(" value(s)");
                    return Err(AstGeneratorError::syntax_issue(context, token_index, message));
                }
            },
        }
        if directive.values.len() != 0 && values.len() == 0 {
            return Err(AstGeneratorError::syntax_issue(context, token_index, "Missing information".to_owned()));
        }
        if directive.directive == DirectiveEnum::Dsb && values.len() > 1 {
            if let DirectiveValue::Word(_) = values[1] {
                return Err(
                    AstGeneratorError::syntax_issue(context, token_index, "Fill byte expected".to_owned()),
                );
            }
        }
        if directive.directive == DirectiveEnum::Include && values.len() > 0 {
            self.include_asm = Some(values[0].clone());
        } else {
            context.add_ast(token_index, Ast::Directive(directive.directive, values));
        }
        Ok(())
    }

    /// Makes the node of a label.
    fn generate_branch(
        &mut self,
        context: &mut Context,
        token_index: usize,
        name: String,
        branch_type: BranchType,
    ) -> (result: Result<(), AstGeneratorError>)
        requires
            old(self).wf(old(context)),
            token_index + 1 == old(self).index,
        ensures
            stepped(
                *old(self),
                *old(context),
                *final(self),
                *final(context),
                token_index as int,
                parsed(token_index + 1, Effect::Node(AstView::Branch(name@, branch_type))),
                result,
            ),
    {
        context.add_ast(token_index, Ast::Branch(name, branch_type));
        Ok(())
    }

    /// Reads `= values` behind the name at `token_index` and records the
    /// constant.
    pub fn generate_assign(
        &mut self,
        context: &mut Context,
        token_index: usize,
        name: String,
    ) -> (result: Result<(), AstGeneratorError>)
        requires
            old(self).wf(old(context)),
            token_index + 1 == old(self).index,
        ensures
            stepped(
                *old(self),
                *old(context),
                *final(self),
                *final(context),
                token_index as int,
                assignment(
                    old(context).tokens.deep_view(),
                    token_index + 1,
                    name@,
                    reference_map(old(context).references@),
                ),
                result,
            ),
    {
        self.cleanup_space(context)?;
        self.eat_assign(context)?;
        self.cleanup_space(context)?;

        let values = self.parse_list(context, None)?;
        if context.references.contains_key(name.as_str()) {
            return Err(AstGeneratorError::ReferenceAlreadyDefined(name));
        }
        let ghost listed = values.deep_view();
        context.references.insert(name, values);
        assert(reference_map(context.references@) =~= reference_map(old(context).references@).insert(
            name@,
            listed,
        ));
        Ok(())
    }

    /// Makes the node of the instruction at `token_index`, with its operand
    /// if it takes one.
    fn generate_code_block(
        &mut self,
        context: &mut Context,
        token_index: usize,
        position: usize,
    ) -> (result: Result<(), AstGeneratorError>)
        requires
            old(self).wf(old(context)),
            token_index + 1 == old(self).index,
        ensures
            stepped(
                *old(self),
                *old(context),
                *final(self),
                *final(context),
                token_index as int,
                code_block(
                    old(context).tokens.deep_view(),
                    token_index as int,
                    position as int,
                    reference_map(old(context).references@),
                ),
                result,
            ),
    {
        if position >= 56 {
            return Err(AstGeneratorError::InternalError);
        }
        if is_operandless_instr(position) {
            context.add_ast(token_index, Ast::InstrImplied(position));
        } else if is_branch_instr(position) {
            self.eat_space(context)?;
            let value = self.parse_instr_value(context)?;
            match value.value {
                InstrValue::Word(_) => {
                    return Err(
                        AstGeneratorError::syntax_issue(
                            context,
                            token_index,
                            "Relative number or branch name expected".to_owned(),
                        ),
                    );
                },
                _ => context.add_ast(token_index, Ast::Instr(position, value)),
            }
        } else {
            self.eat_space(context)?;
            let value = self.parse_instr_value(context)?;
            context.add_ast(token_index, Ast::Instr(position, value));
        }
        Ok(())
    }

    /// Reads one statement, whose first token the cursor has just passed.
    fn generate_statement(
        &mut self,
        context: &mut Context,
        token_index: usize,
    ) -> (result: Result<bool, AstGeneratorError>)
        requires
            old(self).wf(old(context)),
            token_index + 1 == old(self).index,
        ensures
            stepped(
                *old(self),
                *old(context),
                *final(self),
                *final(context),
                token_index as int,
                statement(
                    old(context).tokens.deep_view(),
                    token_index as int,
                    reference_map(old(context).references@),
                ),
                match result {
                    Ok(_) => Ok(()),
                    Err(error) => Err(error),
                },
            ),
            result matches Ok(stop) ==> stop == (statement(
                old(context).tokens.deep_view(),
                token_index as int,
                reference_map(old(context).references@),
            ).outcome == Ok::<Effect, AstGeneratorFault>(Effect::Stop)),
    {
        match &context.tokens[token_index].token {
            Token::Instr(position) => {
                let position = *position;
                self.generate_code_block(context, token_index, position)?;
            },
            Token::Keyword(keyword) => {
                let name = keyword.clone();
                self.generate_assign(context, token_index, name)?;
            },
            Token::Directive(option) => {
                let name = option.clone();
                self.generate_directive(context, token_index, name)?;
            },
            Token::Comment(_) => {},
            Token::Branch(name) => {
                let name = name.clone();
                self.generate_branch(context, token_index, name, BranchType::Generic)?;
            },
            Token::Byte(_) => {
                return Err(AstGeneratorError::syntax_issue(context, token_index, "Number not expected".to_owned()));
            },
            Token::Word(_) => {
                return Err(AstGeneratorError::syntax_issue(context, token_index, "Number not expected".to_owned()));
            },
            Token::NewLine(_) => {},
            Token::Space(_) => {},
            Token::OpenParenthesis => {
                return Err(AstGeneratorError::syntax_issue(context, token_index, "'(' not expected".to_owned()));
            },
            Token::CloseParenthesis => {
                return Err(AstGeneratorError::syntax_issue(context, token_index, "')' not expected".to_owned()));
            },
            Token::Sharp => {
                return Err(AstGeneratorError::syntax_issue(context, token_index, "'#' not expected".to_owned()));
            },
            Token::Assign => {
                return Err(AstGeneratorError::syntax_issue(context, token_index, "'=' not expected".to_owned()));
            },
            Token::Comma => {
                return Err(AstGeneratorError::syntax_issue(context, token_index, "',' not expected".to_owned()));
            },
            Token::String(_) => {
                return Err(AstGeneratorError::syntax_issue(context, token_index, "String not expected".to_owned()));
            },
            Token::BranchNext(name) => {
                let name = name.clone();
                self.generate_branch(context, token_index, name, BranchType::Local)?;
            },
            Token::End => {
                return Ok(true);
            },
        }
        Ok(false)
    }

    /// Reads statement after statement from the cursor on.
    fn inline_generate(
        &mut self,
        context: &mut Context,
    ) -> (result: Result<AstStatus, AstGeneratorError>)
        ensures
            resolved(*old(self), *old(context), *final(self), *final(context), result),
    {
        self.size = context.tokens.len();
        self.include_asm = None;
        let ghost tokens = context.tokens.deep_view();
        let ghost goal = resolve(
            tokens,
            old(self).index as int,
            old(context).asts.deep_view(),
            reference_map(old(context).references@),
        );

        while self.size > self.index
            invariant
                self.size == context.tokens@.len(),
                self.include_asm is None,
                tokens == context.tokens.deep_view(),
                kept_sources(*old(context), *context),
                goal == resolve(
                    tokens,
                    old(self).index as int,
                    old(context).asts.deep_view(),
                    reference_map(old(context).references@),
                ),
                goal == resolve(
                    tokens,
                    self.index as int,
                    context.asts.deep_view(),
                    reference_map(context.references@),
                ),
            decreases remaining(tokens, self.index as int),
        {
            let token_index = self.eat()?;
            proof {
                lemma_statement_advances(tokens, token_index as int, reference_map(context.references@));
            }
            let stop = self.generate_statement(context, token_index)?;
            if stop {
                return Ok(AstStatus::Finished);
            }
            match self.include_asm.take() {
                Some(DirectiveValue::String(name)) => {
                    let file_id = context.tokens[token_index].file_id;
                    let path = context.add_file(file_id, path_from_text(name.as_str()));
                    return Ok(AstStatus::Include { path, name, file_id });
                },
                Some(_) => {
                    return Err(
                        AstGeneratorError::syntax_issue(
                            context,
                            token_index,
                            "Path expected as a string".to_owned(),
                        ),
                    );
                },
                None => {},
            }
        }
        Ok(AstStatus::Finished)
    }

    /// Runs the resolver over the tokens of `context` from the cursor on. It
    /// ends at the end marker, at the first fault, or at the first file that
    /// a directive asks to splice in: that file is recorded with the context,
    /// and once `process_include` has been given its bytes, another call goes
    /// on where this one stopped.
    pub fn generate(
        &mut self,
        context: &mut Context,
    ) -> (result: Result<AstStatus, AstGeneratorError>)
        ensures
            resolved(*old(self), *old(context), *final(self), *final(context), result),
    {
        self.inline_generate(context)
    }

    /// Takes the bytes of the file that `generate` asked for: keeps them in
    /// the file's record, lexes them with a line feed behind them, and
    /// splices the tokens, without their end marker, in where the cursor
    /// stands. A fault of the lexer leaves the tokens as they were.
    pub fn process_include(
        &mut self,
        context: &mut Context,
        code: Vec<u8>,
    ) -> (result: Result<(), ParseError>)
        requires
            old(self).index <= old(context).tokens@.len(),
            old(context).files@.len() > 0,
            old(context).wf(),
        ensures
            final(self).index == old(self).index,
            final(self).include_asm == old(self).include_asm,
            recorded(*old(context), *final(context), code@),
            match lex(code@.push(LINE_FEED), old(context).files@.len() - 1).outcome {
                Ok(_) => {
                    &&& result is Ok
                    &&& final(context).tokens.deep_view() == spliced(
                        old(context).tokens.deep_view(),
                        old(self).index as int,
                        lex(code@.push(LINE_FEED), old(context).files@.len() - 1).tokens.drop_last(),
                    )
                    &&& final(self).size == final(context).tokens@.len()
                },
                Err(error) => {
                    &&& lex_fails(result, error)
                    &&& final(context).tokens == old(context).tokens
                    &&& final(self).size == old(self).size
                },
            },
    {
        let file_id = context.last_file_id();
        let ghost given = code@;
        let mut code = code;
        code.push(LINE_FEED);
        let new_context = Context::new(context.work_directory.clone());
        let ghost run = lex(given.push(LINE_FEED), file_id as int);
        assert(new_context.tokens.deep_view() =~= Seq::<TokenInfoView>::empty());
        let mut parser = Parser::new(file_id, code.as_slice(), new_context);
        let outcome = parser.parse();
        assert(outcome is Ok <==> run.outcome is Ok);
        assert(parser.context.tokens.deep_view() == run.tokens);
        let mut new_tokens = parser.context.tokens;
        proof {
            lemma_lex_ends_with_marker(given.push(LINE_FEED), file_id as int, 0, 0, 0, Seq::empty());
        }
        let _ = code.pop();
        assert(code@ =~= given);
        let mut file = context.code_files.pop().unwrap();
        file.data = code;
        context.code_files.push(file);
        assert(context.code_files@.drop_last() =~= old(context).code_files@.drop_last());

        if let Err(error) = outcome {
            return Err(error);
        }
        let ghost lexed = new_tokens.deep_view().drop_last();
        let ghost before = context.tokens.deep_view();
        let current_position = self.index;
        let _ = new_tokens.pop();
        assert(new_tokens.deep_view() =~= lexed);
        assert(lexed.take(lexed.len() as int) =~= lexed);
        assert(context.tokens.deep_view() =~= spliced(before, current_position as int, lexed.skip(lexed.len() as int)));

        while new_tokens.len() > 0
            invariant
                current_position <= before.len(),
                current_position <= context.tokens@.len(),
                new_tokens@.len() <= lexed.len(),
                new_tokens.deep_view() == lexed.take(new_tokens@.len() as int),
                context.tokens.deep_view() == spliced(
                    before,
                    current_position as int,
                    lexed.skip(new_tokens@.len() as int),
                ),
                recorded(*old(context), *context, given),
                self.index == old(self).index,
                self.include_asm == old(self).include_asm,
            decreases new_tokens@.len(),
        {
            let ghost stood = context.tokens.deep_view();
            let ghost count = new_tokens@.len() as int;
            let ghost held = new_tokens.deep_view();
            let token = new_tokens.pop().unwrap();
            context.tokens.insert(current_position, token);
            proof {
                assert(token@ == held[count - 1]);
                assert(held[count - 1] == lexed[count - 1]);
                assert(new_tokens.deep_view() =~= lexed.take(count - 1));
                assert(context.tokens.deep_view() =~= stood.insert(current_position as int, token@));
                lemma_splice_insert(before, current_position as int, lexed, count);
            }
        }
        self.size = context.tokens.len();
        assert(lexed.skip(0) =~= lexed);
        Ok(())
    }

    /// Reads the start of an operand: the parenthesis and the `#` that may
    /// stand before the value. Returns the operand's first token, its value
    /// token, and whether each mark was there.
    fn read_opening(
        &mut self,
        context: &Context,
    ) -> (result: Result<(usize, usize, bool, bool), AstGeneratorError>)
        requires
            old(self).wf(context),
        ensures
            final(self).wf(context),
            final(self).include_asm == old(self).include_asm,
            final(self).index == opening(context.tokens.deep_view(), old(self).index as int).next,
            match opening(context.tokens.deep_view(), old(self).index as int).outcome {
                Ok(open) => result matches Ok(found) && found.0 == open.anchor && found.1 == open.value_at
                    && found.2 == open.in_parenthesis && found.3 == open.is_immediate && found.1
                    < context.tokens@.len() && found.0 < context.tokens@.len(),
                Err(fault) => fails_with(result, fault),
            },
    {
        self.cleanup_space(context)?;
        let token_index = self.eat()?;
        let mut value_index = token_index;
        let mut in_parenthesis = false;
        let mut is_immediate = false;

        if let Token::OpenParenthesis = context.tokens[value_index].token {
            in_parenthesis = true;
            self.cleanup_space(context)?;
            value_index = self.eat()?;
        }
        if let Token::Sharp = context.tokens[value_index].token {
            is_immediate = true;
            value_index = self.eat()?;
        }
        Ok((token_index, value_index, in_parenthesis, is_immediate))
    }

    /// The value that the token at `value_index` stands for; a fault is
    /// located at the operand's first token.
    fn read_value(
        context: &Context,
        token_index: usize,
        value_index: usize,
    ) -> (result: Result<InstrValue, AstGeneratorError>)
        requires
            token_index < context.tokens@.len(),
            value_index < context.tokens@.len(),
        ensures
            match operand_value(
                context.tokens.deep_view()[value_index as int].token,
                reference_map(context.references@),
            ) {
                Ok(value) => result matches Ok(found) && found@ == value,
                Err(message) => fails_with(
                    result,
                    syntax_fault(context.tokens.deep_view(), token_index as int, message),
                ),
            },
    {
        match &context.tokens[value_index].token {
            Token::Keyword(keyword) => {
                match context.references.get(keyword.as_str()) {
                    Some(values) => {
                        if values.len() != 1 {
                            return Err(
                                AstGeneratorError::syntax_issue(
                                    context,
                                    token_index,
                                    "Only one token required".to_owned(),
                                ),
                            );
                        }
                        match &values[0] {
                            DirectiveValue::Byte(byte) => Ok(InstrValue::Byte(*byte)),
                            DirectiveValue::Word(word) => Ok(InstrValue::Word(*word)),
                            _ => Err(
                                AstGeneratorError::syntax_issue(
                                    context,
                                    token_index,
                                    "Invalid token for number".to_owned(),
                                ),
                            ),
                        }
                    },
                    None => Ok(InstrValue::Reference(keyword.clone())),
                }
            },
            Token::Directive(keyword) => Ok(InstrValue::LocalReference(keyword.clone())),
            Token::Byte(byte) => Ok(InstrValue::Byte(*byte)),
            Token::Word(word) => Ok(InstrValue::Word(*word)),
            _ => Err(
                AstGeneratorError::syntax_issue(
                    context,
                    token_index,
                    "Invalid numbering number format".to_owned(),
                ),
            ),
        }
    }

    /// Reads an optional `, register` where the cursor stands.
    fn read_register(
        &mut self,
        context: &Context,
        in_parenthesis: bool,
        parenthesis_open: bool,
    ) -> (result: Result<InstrInfoRegister, AstGeneratorError>)
        requires
            old(self).wf(context),
            old(self).index < old(self).size,
        ensures
            final(self).wf(context),
            final(self).include_asm == old(self).include_asm,
            final(self).index == closing_register(
                context.tokens.deep_view(),
                old(self).index as int,
                in_parenthesis,
                parenthesis_open,
            ).next,
            match closing_register(
                context.tokens.deep_view(),
                old(self).index as int,
                in_parenthesis,
                parenthesis_open,
            ).outcome {
                Ok(close) => result == Ok::<InstrInfoRegister, AstGeneratorError>(close.register)
                    && close.parenthesis_open == parenthesis_open,
                Err(fault) => fails_with(result, fault),
            },
    {
        if let Token::Comma = context.tokens[self.index].token {
            self.eat()?;
            self.cleanup_space(context)?;

            let register_index = self.peek()?;
            let register = match named_register(&context.tokens[register_index].token) {
                Some(named) => named,
                None => {
                    return Err(
                        AstGeneratorError::syntax_issue(context, register_index, "Expected X or Y".to_owned()),
                    );
                },
            };
            if parenthesis_open && register == InstrInfoRegister::Y {
                return Err(AstGeneratorError::syntax_issue(context, register_index, "Expected X".to_owned()));
            } else if !parenthesis_open && in_parenthesis && register == InstrInfoRegister::X {
                return Err(AstGeneratorError::syntax_issue(context, register_index, "Expected Y".to_owned()));
            }
            self.eat()?;
            Ok(register)
        } else {
            Ok(InstrInfoRegister::NoRegister)
        }
    }

    /// Reads what follows an operand's value: the `)` and the register that
    /// may stand there. Returns the register and whether a `(` still waits
    /// for its `)`.
    fn read_closing(
        &mut self,
        context: &Context,
        in_parenthesis: bool,
    ) -> (result: Result<(InstrInfoRegister, bool), AstGeneratorError>)
        requires
            old(self).wf(context),
        ensures
            final(self).wf(context),
            final(self).include_asm == old(self).include_asm,
            final(self).index == closing(context.tokens.deep_view(), old(self).index as int, in_parenthesis).next,
            match closing(context.tokens.deep_view(), old(self).index as int, in_parenthesis).outcome {
                Ok(close) => result == Ok::<(InstrInfoRegister, bool), AstGeneratorError>(
                    (close.register, close.parenthesis_open),
                ),
                Err(fault) => fails_with(result, fault),
            },
    {
        self.cleanup_space(context)?;
        let mut parenthesis_open = in_parenthesis;
        let mut register = InstrInfoRegister::NoRegister;

        if let Ok(at) = self.peek() {
            if let Token::CloseParenthesis = context.tokens[at].token {
                let _ = self.eat()?;
                parenthesis_open = false;
                self.cleanup_space(context)?;
                let _ = self.peek()?;
            }
            register = self.read_register(context, in_parenthesis, parenthesis_open)?;
        }
        Ok((register, parenthesis_open))
    }

    /// Reads the operand of an instruction from the cursor on.
    pub fn parse_instr_value(
        &mut self,
        context: &Context,
    ) -> (result: Result<InstrInfo, AstGeneratorError>)
        requires
            old(self).wf(context),
        ensures
            final(self).wf(context),
            final(self).include_asm == old(self).include_asm,
            final(self).index == operand(
                context.tokens.deep_view(),
                old(self).index as int,
                reference_map(context.references@),
            ).next,
            match operand(
                context.tokens.deep_view(),
                old(self).index as int,
                reference_map(context.references@),
            ).outcome {
                Ok(info) => result matches Ok(found) && found@ == info,
                Err(fault) => fails_with(result, fault),
            },
    {
        let (token_index, value_index, in_parenthesis, is_immediate) = self.read_opening(context)?;
        let mut value = Self::read_value(context, token_index, value_index)?;
        let (register, parenthesis_open) = self.read_closing(context, in_parenthesis)?;
        self.cleanup_space(context)?;

        if parenthesis_open {
            let error = AstGeneratorError::syntax_issue(context, token_index, "Expected ')'".to_owned());
            self.eat_expected(context, TokenType::CloseParenthesis, error)?;
        }
        if is_immediate && !in_parenthesis && register == InstrInfoRegister::NoRegister {
            if let InstrValue::Word(word) = value {
                value = InstrValue::Byte((word % 256) as u8);
            }
        }
        if !is_immediate && in_parenthesis && register != InstrInfoRegister::NoRegister {
            if let InstrValue::Word(word) = value {
                value = InstrValue::Byte((word % 256) as u8);
            }
        }
        Ok(InstrInfo { value, is_immediate, in_parenthesis, register })
    }
}

/// The register that a token names.
pub fn named_register(token: &Token) -> (register: Option<InstrInfoRegister>)
    ensures
        register == register_named(token@),
{
    match token {
        Token::Keyword(name) => {
            if eq_ignoring_case(name.as_str(), "X") {
                Some(InstrInfoRegister::X)
            } else if eq_ignoring_case(name.as_str(), "Y") {
                Some(InstrInfoRegister::Y)
            } else {
                None
            }
        },
        _ => None,
    }
}

/// Whether a result is the error `fault`.
pub open spec fn fails_with<T>(
    result: Result<T, AstGeneratorError>,
    fault: AstGeneratorFault,
) -> bool {
    result matches Err(error) && error@ == fault
}

} // verus!
