//! The ways in which compiling a schema fails.

use crate::number::{int_to_decimal, push_i64};
use crate::validators::Constraint;
use vstd::prelude::*;
use vstd::string::StringExecFns;

verus! {

/// Why a schema was rejected. Compilation stops at the first problem found.
#[derive(Clone, Debug, PartialEq, Eq)]
pub enum CompileError {
    /// An entry without a `:` between key and type.
    Grammar { entry: String },
    /// A type name that is none of the known aliases.
    UnknownType { key: String, type_text: String },
    /// A constraint literal of no known form, or one whose number does not
    /// read as a signed decimal integer.
    ConstraintSyntax { key: String, literal: String },
    /// A constraint that the field's type does not admit.
    ConstraintCompatibility { key: String, constraint: Constraint },
}

/// A `CompileError` with its texts as character sequences.
pub ghost enum CompileErrorView {
    Grammar { entry: Seq<char> },
    UnknownType { key: Seq<char>, type_text: Seq<char> },
    ConstraintSyntax { key: Seq<char>, literal: Seq<char> },
    ConstraintCompatibility { key: Seq<char>, constraint: Constraint },
}

impl View for CompileError {
    type V = CompileErrorView;

    open spec fn view(&self) -> CompileErrorView {
        match *self {
            CompileError::Grammar { entry } => CompileErrorView::Grammar { entry: entry@ },
            CompileError::UnknownType { key, type_text } => CompileErrorView::UnknownType {
                key: key@,
                type_text: type_text@,
            },
            CompileError::ConstraintSyntax { key, literal } => CompileErrorView::ConstraintSyntax {
                key: key@,
                literal: literal@,
            },
            CompileError::ConstraintCompatibility {
                key,
                constraint,
            } => CompileErrorView::ConstraintCompatibility { key: key@, constraint },
        }
    }
}

/// How a constraint is written in a message: its name, and its bound in
/// brackets if it has one.
pub open spec fn constraint_text(c: Constraint) -> Seq<char> {
    match c {
        Constraint::Min(v) => "Min("@ + int_to_decimal(v as int) + ")"@,
        Constraint::Max(v) => "Max("@ + int_to_decimal(v as int) + ")"@,
        Constraint::NotEmpty => "NotEmpty"@,
        Constraint::Optional => "Optional"@,
    }
}

/// The message of a failure. It names the entry, the key, the literal or the
/// constraint at fault.
pub open spec fn message_text(e: CompileErrorView) -> Seq<char> {
    match e {
        CompileErrorView::Grammar { entry } => "invalid entry: "@ + entry,
        CompileErrorView::UnknownType { key, type_text } => "unsupported type for "@ + key + ": "@
            + type_text,
        CompileErrorView::ConstraintSyntax { key, literal } => "invalid constraint for "@ + key
            + ": "@ + literal,
        CompileErrorView::ConstraintCompatibility { key, constraint } => "invalid constraint for "@
            + key + ": "@ + constraint_text(constraint) + " is not allowed for its type"@,
    }
}

/// Appends the text of a constraint.
pub fn push_constraint(out: &mut String, c: Constraint)
    ensures
        final(out)@ == old(out)@ + constraint_text(c),
{
    match c {
        Constraint::Min(v) => {
            out.append("Min(");
            push_i64(out, v);
            out.append(")");
        },
        Constraint::Max(v) => {
            out.append("Max(");
            push_i64(out, v);
            out.append(")");
        },
        Constraint::NotEmpty => {
            out.append("NotEmpty");
        },
        Constraint::Optional => {
            out.append("Optional");
        },
    }
    assert(final(out)@ =~= old(out)@ + constraint_text(c));
}

impl CompileError {
    /// The message of this failure.
    pub fn message(&self) -> (text: String)
        ensures
            text@ == message_text(self@),
    {
        let mut text = String::new();
        match self {
            CompileError::Grammar { entry } => {
                text.append("invalid entry: ");
                text.append(entry.as_str());
            },
            CompileError::UnknownType { key, type_text } => {
                text.append("unsupported type for ");
                text.append(key.as_str());
                text.append(": ");
                text.append(type_text.as_str());
            },
            CompileError::ConstraintSyntax { key, literal } => {
                text.append("invalid constraint for ");
                text.append(key.as_str());
                text.append(": ");
                text.append(literal.as_str());
            },
            CompileError::ConstraintCompatibility { key, constraint } => {
                text.append("invalid constraint for ");
                text.append(key.as_str());
                text.append(": ");
                push_constraint(&mut text, *constraint);
                text.append(" is not allowed for its type");
            },
        }
        assert(text@ =~= message_text(self@));
        text
    }
}

/// A result with both sides replaced by their views.
pub open spec fn result_view<T: View, E: View>(r: Result<T, E>) -> Result<T::V, E::V> {
    match r {
        Ok(v) => Ok(v@),
        Err(e) => Err(e@),
    }
}

/// The views of the items of a sequence.
pub open spec fn views<T: View>(v: Seq<T>) -> Seq<T::V> {
    Seq::new(v.len(), |i: int| v[i]@)
}

} // verus!
