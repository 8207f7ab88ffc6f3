//! Directives: their names, the values they take, and the table of both.

use vstd::prelude::*;
use crate::code_gen::{CodeGeneratorError, CodeGeneratorFault};
use crate::tool::{eq_ignoring_case, same_ignoring_case};

verus! {

/// What a directive does.
#[derive(Debug, PartialEq, Eq, Copy, Clone, Structural)]
pub enum DirectiveEnum {
    Org,
    Incbin,
    Byte,
    Word,
    Ascii,
    Asciiz,
    Warning,
    Fail,
    Include,
    Pad,
    Fillvalue,
    Dsb,
    Dsw,
}

/// One value of a directive or of a constant assignment.
#[derive(Debug, PartialEq)]
pub enum DirectiveValue {
    Byte(u8),
    Word(u16),
    String(String),
    Reference(String),
}

/// A `DirectiveValue` with its text as a character sequence.
pub enum DirectiveValueView {
    Byte(u8),
    Word(u16),
    String(Seq<char>),
    Reference(Seq<char>),
}

/// The kind of a `DirectiveValue`, without what it holds.
#[derive(Debug, PartialEq, Eq, Copy, Clone, Structural)]
pub enum DirectiveType {
    Byte,
    Word,
    String,
    Reference,
}

/// How many values a directive takes.
#[derive(Debug, PartialEq, Eq, Copy, Clone, Structural)]
pub enum DirectiveVariableSize {
    NoValue,
    Min(usize),
    Length(usize),
    /// At least the first and at most the second number of values.
    Between(usize, usize),
}

/// One row of the directive table.
#[derive(Debug, PartialEq, Clone, Copy)]
pub struct DirectiveInfo {
    pub name: &'static str,
    pub directive: DirectiveEnum,
    pub size: DirectiveVariableSize,
    pub values: &'static [DirectiveType],
}

/// A `DirectiveInfo` as plain values.
#[verifier::ext_equal]
pub struct DirectiveInfoView {
    pub name: Seq<char>,
    pub directive: DirectiveEnum,
    pub size: DirectiveVariableSize,
    pub values: Seq<DirectiveType>,
}

impl View for DirectiveValue {
    type V = DirectiveValueView;

    open spec fn view(&self) -> DirectiveValueView {
        match self {
            DirectiveValue::Byte(number) => DirectiveValueView::Byte(*number),
            DirectiveValue::Word(number) => DirectiveValueView::Word(*number),
            DirectiveValue::String(text) => DirectiveValueView::String(text@),
            DirectiveValue::Reference(name) => DirectiveValueView::Reference(name@),
        }
    }
}

impl DeepView for DirectiveValue {
    type V = DirectiveValueView;

    open spec fn deep_view(&self) -> DirectiveValueView {
        self@
    }
}

impl View for DirectiveInfo {
    type V = DirectiveInfoView;

    open spec fn view(&self) -> DirectiveInfoView {
        DirectiveInfoView {
            name: self.name@,
            directive: self.directive,
            size: self.size,
            values: self.values@,
        }
    }
}

impl DirectiveValueView {
    /// The kind of the value.
    pub open spec fn kind(self) -> DirectiveType {
        match self {
            DirectiveValueView::Byte(_) => DirectiveType::Byte,
            DirectiveValueView::Word(_) => DirectiveType::Word,
            DirectiveValueView::String(_) => DirectiveType::String,
            DirectiveValueView::Reference(_) => DirectiveType::Reference,
        }
    }
}

impl Clone for DirectiveValue {
    fn clone(&self) -> (result: Self)
        ensures
            result@ == self@,
    {
        match self {
            DirectiveValue::Byte(number) => DirectiveValue::Byte(*number),
            DirectiveValue::Word(number) => DirectiveValue::Word(*number),
            DirectiveValue::String(text) => DirectiveValue::String(text.clone()),
            DirectiveValue::Reference(name) => DirectiveValue::Reference(name.clone()),
        }
    }
}

impl DirectiveValue {
    /// The word that the value holds; a value of another kind is refused.
    pub fn get_word(&self) -> (result: Result<u16, CodeGeneratorError>)
        ensures
            match self@ {
                DirectiveValueView::Word(number) => result == Ok::<u16, CodeGeneratorError>(number),
                _ => result matches Err(error) && error@ == CodeGeneratorFault::ExpectedThis(
                    "Word information"@,
                ),
            },
    {
        match self {
            DirectiveValue::Word(number) => Ok(*number),
            _ => Err(CodeGeneratorError::ExpectedThis("Word information")),
        }
    }

    /// The byte that the value holds; a value of another kind is refused.
    pub fn get_byte(&self) -> (result: Result<u8, CodeGeneratorError>)
        ensures
            match self@ {
                DirectiveValueView::Byte(number) => result == Ok::<u8, CodeGeneratorError>(number),
                _ => result matches Err(error) && error@ == CodeGeneratorFault::ExpectedThis(
                    "Byte information"@,
                ),
            },
    {
        match self {
            DirectiveValue::Byte(number) => Ok(*number),
            _ => Err(CodeGeneratorError::ExpectedThis("Byte information")),
        }
    }

    /// The kind of the value.
    pub fn directive_type(&self) -> (kind: DirectiveType)
        ensures
            kind == self@.kind(),
    {
        match self {
            DirectiveValue::Byte(_) => DirectiveType::Byte,
            DirectiveValue::Word(_) => DirectiveType::Word,
            DirectiveValue::String(_) => DirectiveType::String,
            DirectiveValue::Reference(_) => DirectiveType::Reference,
        }
    }
}

/// A row of the table as plain values.
pub open spec fn row(
    name: Seq<char>,
    directive: DirectiveEnum,
    size: DirectiveVariableSize,
    values: Seq<DirectiveType>,
) -> Option<DirectiveInfoView> {
    Some(DirectiveInfoView { name, directive, size, values })
}

/// The row of the directive table whose name is `name`, letters taken
/// without case; the first one in table order.
pub open spec fn system_directive(name: Seq<char>) -> Option<DirectiveInfoView> {
    if same_ignoring_case(name, "BYTE"@) {
        row(
            "BYTE"@,
            DirectiveEnum::Byte,
            DirectiveVariableSize::Min(1),
            seq![DirectiveType::Byte, DirectiveType::String],
        )
    } else if same_ignoring_case(name, "DB"@) {
        row(
            "DB"@,
            DirectiveEnum::Byte,
            DirectiveVariableSize::Min(1),
            seq![DirectiveType::Byte, DirectiveType::String],
        )
    } else if same_ignoring_case(name, "WORD"@) {
        row(
            "WORD"@,
            DirectiveEnum::Word,
            DirectiveVariableSize::Min(1),
            seq![DirectiveType::Byte, DirectiveType::Word],
        )
    } else if same_ignoring_case(name, "DW"@) {
        row(
            "DW"@,
            DirectiveEnum::Word,
            DirectiveVariableSize::Min(1),
            seq![DirectiveType::Byte, DirectiveType::Word],
        )
    } else if same_ignoring_case(name, "ORG"@) {
        row(
            "ORG"@,
            DirectiveEnum::Org,
            DirectiveVariableSize::Length(1),
            seq![DirectiveType::Word],
        )
    } else if same_ignoring_case(name, "INCBIN"@) {
        row(
            "INCBIN"@,
            DirectiveEnum::Incbin,
            DirectiveVariableSize::Length(1),
            seq![DirectiveType::String],
        )
    } else if same_ignoring_case(name, "ASCII"@) {
        row(
            "ASCII"@,
            DirectiveEnum::Ascii,
            DirectiveVariableSize::Min(1),
            seq![DirectiveType::String],
        )
    } else if same_ignoring_case(name, "ASCIIZ"@) {
        row(
            "ASCIIZ"@,
            DirectiveEnum::Asciiz,
            DirectiveVariableSize::Min(1),
            seq![DirectiveType::String],
        )
    } else if same_ignoring_case(name, "WARNING"@) {
        row(
            "WARNING"@,
            DirectiveEnum::Warning,
            DirectiveVariableSize::Min(1),
            seq![DirectiveType::String, DirectiveType::Word, DirectiveType::Byte],
        )
    } else if same_ignoring_case(name, "FAIL"@) {
        row(
            "FAIL"@,
            DirectiveEnum::Fail,
            DirectiveVariableSize::Length(1),
            seq![DirectiveType::String, DirectiveType::Word, DirectiveType::Byte],
        )
    } else if same_ignoring_case(name, "INCLUDE"@) {
        row(
            "INCLUDE"@,
            DirectiveEnum::Include,
            DirectiveVariableSize::Length(1),
            seq![DirectiveType::String],
        )
    } else if same_ignoring_case(name, "PAD"@) {
        row(
            "PAD"@,
            DirectiveEnum::Pad,
            DirectiveVariableSize::Length(1),
            seq![DirectiveType::Word],
        )
    } else if same_ignoring_case(name, "FILLVALUE"@) {
        row(
            "FILLVALUE"@,
            DirectiveEnum::Fillvalue,
            DirectiveVariableSize::Length(1),
            seq![DirectiveType::Byte],
        )
    } else if same_ignoring_case(name, "DSB"@) {
        row(
            "DSB"@,
            DirectiveEnum::Dsb,
            DirectiveVariableSize::Between(1, 2),
            seq![DirectiveType::Byte, DirectiveType::Word],
        )
    } else if same_ignoring_case(name, "DSW"@) {
        row(
            "DSW"@,
            DirectiveEnum::Dsw,
            DirectiveVariableSize::Between(1, 2),
            seq![DirectiveType::Byte, DirectiveType::Word],
        )
    } else {
        None
    }
}

/// Whether a directive with the accepted kinds `values` takes a value of
/// kind `kind`: a reference always, another kind if it is listed.
pub open spec fn accepts(values: Seq<DirectiveType>, kind: DirectiveType) -> bool {
    kind == DirectiveType::Reference || values.contains(kind)
}

/// Looks a directive up by its name, letters taken without case.
pub fn find_directive(name: &str) -> (info: Option<DirectiveInfo>)
    ensures
        match system_directive(name@) {
            Some(row) => info matches Some(found) && found@ =~= row,
            None => info is None,
        },
{
    if eq_ignoring_case(name, "BYTE") {
        Some(DirectiveInfo {
            name: "BYTE",
            directive: DirectiveEnum::Byte,
            size: DirectiveVariableSize::Min(1),
            values: &[DirectiveType::Byte, DirectiveType::String],
        })
    } else if eq_ignoring_case(name, "DB") {
        Some(DirectiveInfo {
            name: "DB",
            directive: DirectiveEnum::Byte,
            size: DirectiveVariableSize::Min(1),
            values: &[DirectiveType::Byte, DirectiveType::String],
        })
    } else if eq_ignoring_case(name, "WORD") {
        Some(DirectiveInfo {
            name: "WORD",
            directive: DirectiveEnum::Word,
            size: DirectiveVariableSize::Min(1),
            values: &[DirectiveType::Byte, DirectiveType::Word],
        })
    } else if eq_ignoring_case(name, "DW") {
        Some(DirectiveInfo {
            name: "DW",
            directive: DirectiveEnum::Word,
            size: DirectiveVariableSize::Min(1),
            values: &[DirectiveType::Byte, DirectiveType::Word],
        })
    } else if eq_ignoring_case(name, "ORG") {
        Some(DirectiveInfo {
            name: "ORG",
            directive: DirectiveEnum::Org,
            size: DirectiveVariableSize::Length(1),
            values: &[DirectiveType::Word],
        })
    } else if eq_ignoring_case(name, "INCBIN") {
        Some(DirectiveInfo {
            name: "INCBIN",
            directive: DirectiveEnum::Incbin,
            size: DirectiveVariableSize::Length(1),
            values: &[DirectiveType::String],
        })
    } else if eq_ignoring_case(name, "ASCII") {
        Some(DirectiveInfo {
            name: "ASCII",
            directive: DirectiveEnum::Ascii,
            size: DirectiveVariableSize::Min(1),
            values: &[DirectiveType::String],
        })
    } else if eq_ignoring_case(name, "ASCIIZ") {
        Some(DirectiveInfo {
            name: "ASCIIZ",
            directive: DirectiveEnum::Asciiz,
            size: DirectiveVariableSize::Min(1),
            values: &[DirectiveType::String],
        })
    } else if eq_ignoring_case(name, "WARNING") {
        Some(DirectiveInfo {
            name: "WARNING",
            directive: DirectiveEnum::Warning,
            size: DirectiveVariableSize::Min(1),
            values: &[DirectiveType::String, DirectiveType::Word, DirectiveType::Byte],
        })
    } else if eq_ignoring_case(name, "FAIL") {
        Some(DirectiveInfo {
            name: "FAIL",
            directive: DirectiveEnum::Fail,
            size: DirectiveVariableSize::Length(1),
            values: &[DirectiveType::String, DirectiveType::Word, DirectiveType::Byte],
        })
    } else if eq_ignoring_case(name, "INCLUDE") {
        Some(DirectiveInfo {
            name: "INCLUDE",
            directive: DirectiveEnum::Include,
            size: DirectiveVariableSize::Length(1),
            values: &[DirectiveType::String],
        })
    } else if eq_ignoring_case(name, "PAD") {
        Some(DirectiveInfo {
            name: "PAD",
            directive: DirectiveEnum::Pad,
            size: DirectiveVariableSize::Length(1),
            values: &[DirectiveType::Word],
        })
    } else if eq_ignoring_case(name, "FILLVALUE") {
        Some(DirectiveInfo {
            name: "FILLVALUE",
            directive: DirectiveEnum::Fillvalue,
            size: DirectiveVariableSize::Length(1),
            values: &[DirectiveType::Byte],
        })
    } else if eq_ignoring_case(name, "DSB") {
        Some(DirectiveInfo {
            name: "DSB",
            directive: DirectiveEnum::Dsb,
            size: DirectiveVariableSize::Between(1, 2),
            values: &[DirectiveType::Byte, DirectiveType::Word],
        })
    } else if eq_ignoring_case(name, "DSW") {
        Some(DirectiveInfo {
            name: "DSW",
            directive: DirectiveEnum::Dsw,
            size: DirectiveVariableSize::Between(1, 2),
            values: &[DirectiveType::Byte, DirectiveType::Word],
        })
    } else {
        None
    }
}

/// Whether a directive that lists the kinds `values` takes a value of kind
/// `kind`.
pub fn accepts_kind(values: &[DirectiveType], kind: DirectiveType) -> (result: bool)
    ensures
        result == accepts(values@, kind),
{
    if kind == DirectiveType::Reference {
        return true;
    }
    let mut i: usize = 0;
    while i < values.len()
        invariant
            i <= values@.len(),
            forall|j: int| 0 <= j < i ==> values@[j] != kind,
        decreases values@.len() - i,
    {
        if values[i] == kind {
            return true;
        }
        i += 1;
    }
    false
}

} // verus!
