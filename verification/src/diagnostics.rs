//! The entries of the diagnostic log.
//!
//! The interpreter records what happened as data; putting an entry into
//! words is left to whoever shows the log.

use vstd::prelude::*;
use crate::number::Number;

verus! {

/// What an entry of the log reports.
#[derive(Clone, Copy, Debug, PartialEq, Eq, Structural)]
pub enum DiagnosticKind {
    /// An operand of an expression is neither a bracketed expression, nor a
    /// variable, nor a number. `detail` is the operand.
    Unresolved,
    /// The target of an assignment is itself a number. `detail` is the target.
    NumberAsName,
    /// The target of an assignment may not be overwritten. `detail` is its name.
    ReadOnly,
    /// A statement could not be taken apart. `detail` is the statement.
    Malformed,
    /// The distance of a move is not finite. `value` is the distance.
    BadDistance,
    /// The angle of a turn is not finite. `value` is the angle.
    BadAngle,
    /// A colour channel is not an integer from 0 to 255. `value` is the channel.
    BadChannel,
    /// The pen width is not finite. `value` is the width.
    BadWidth,
    /// A variable that was asked for does not exist. `detail` is its name.
    Undefined,
    /// The value of a variable. `detail` is its name, `value` the value.
    Value,
    /// The source text of a variable. `detail` is its name, `other` the text.
    Raw,
    /// The first bound of a loop is not an integer. `detail` is the bound.
    BadStart,
    /// The second bound of a loop is not an integer. `detail` is the bound.
    BadEnd,
    /// The first bound of a loop is above the second. `detail` and `other`
    /// are the bounds.
    EmptyRange,
    /// The reference of all commands was asked for.
    Help,
    /// The command is not known. `detail` is its name.
    Unknown,
    /// The program used up its budget of steps and was stopped.
    Exhausted,
}

/// One entry of the log.
#[derive(Clone, Debug, PartialEq)]
pub struct Diagnostic {
    pub kind: DiagnosticKind,
    pub detail: String,
    pub other: String,
    pub value: Number,
}

/// An entry of the log as a mathematical value.
pub ghost struct DiagnosticView {
    pub kind: DiagnosticKind,
    pub detail: Seq<char>,
    pub other: Seq<char>,
    pub value: Number,
}

impl View for Diagnostic {
    type V = DiagnosticView;

    open spec fn view(&self) -> DiagnosticView {
        DiagnosticView {
            kind: self.kind,
            detail: self.detail@,
            other: self.other@,
            value: self.value,
        }
    }
}

/// The entries of a log as mathematical values.
pub open spec fn entries(log: Seq<Diagnostic>) -> Seq<DiagnosticView> {
    Seq::new(log.len(), |i: int| log[i]@)
}

/// An entry that carries a text.
pub open spec fn about(kind: DiagnosticKind, detail: Seq<char>) -> DiagnosticView {
    DiagnosticView { kind, detail, other: Seq::empty(), value: Number { bits: 0 } }
}

/// An entry that carries two texts.
pub open spec fn about_two(kind: DiagnosticKind, detail: Seq<char>, other: Seq<char>)
    -> DiagnosticView {
    DiagnosticView { kind, detail, other, value: Number { bits: 0 } }
}

/// An entry that carries a number.
pub open spec fn about_value(kind: DiagnosticKind, value: Number) -> DiagnosticView {
    DiagnosticView { kind, detail: Seq::empty(), other: Seq::empty(), value }
}

/// An entry that carries a text and a number.
pub open spec fn about_both(kind: DiagnosticKind, detail: Seq<char>, value: Number)
    -> DiagnosticView {
    DiagnosticView { kind, detail, other: Seq::empty(), value }
}

impl Diagnostic {
    /// An entry with the given text.
    pub fn text(kind: DiagnosticKind, detail: String) -> (d: Diagnostic)
        ensures
            d@ == about(kind, detail@),
    {
        Diagnostic { kind, detail, other: String::new(), value: Number { bits: 0 } }
    }

    /// An entry with the given two texts.
    pub fn texts(kind: DiagnosticKind, detail: String, other: String) -> (d: Diagnostic)
        ensures
            d@ == about_two(kind, detail@, other@),
    {
        Diagnostic { kind, detail, other, value: Number { bits: 0 } }
    }

    /// An entry with the given number.
    pub fn number(kind: DiagnosticKind, value: Number) -> (d: Diagnostic)
        ensures
            d@ == about_value(kind, value),
    {
        Diagnostic { kind, detail: String::new(), other: String::new(), value }
    }

    /// An entry with the given text and number.
    pub fn named(kind: DiagnosticKind, detail: String, value: Number) -> (d: Diagnostic)
        ensures
            d@ == about_both(kind, detail@, value),
    {
        Diagnostic { kind, detail, other: String::new(), value }
    }
}

} // verus!
