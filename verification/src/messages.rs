//! The diagnostics that parsing and the passes report.
//!
//! Every failure is reported once: the first one detected ends the analysis.

use vstd::prelude::*;
use vstd::string::*;
use crate::ast::{operator_symbol, push_operator, Operator};
use crate::text::{decimal, push_decimal, push_name};

verus! {

/// What went wrong, with the names or operands involved.
#[derive(Debug, PartialEq, Eq)]
pub enum Diagnostic {
    /// The source text is not a program of the language, or holds an integer
    /// literal above 255.
    ParseFailure,
    /// Two inputs share this name.
    RedefinedInput(String),
    /// This name is assigned although an input or an earlier statement
    /// defines it.
    RedefinedVariable(String),
    /// This name is used although nothing defines it at that point.
    UndefinedVariable(String),
    /// A constant sum or product exceeds 255.
    ArithmeticOverflow(u8, Operator, u8),
    /// A constant difference is negative.
    ArithmeticUnderflow(u8, Operator, u8),
    /// A constant is divided by zero.
    DivisionByZero(u8, u8),
    /// A constant division leaves a remainder.
    InexactDivision(u8, u8),
}

/// The model of a [`Diagnostic`].
pub ghost enum DiagnosticView {
    ParseFailure,
    RedefinedInput(Seq<char>),
    RedefinedVariable(Seq<char>),
    UndefinedVariable(Seq<char>),
    ArithmeticOverflow(u8, Operator, u8),
    ArithmeticUnderflow(u8, Operator, u8),
    DivisionByZero(u8, u8),
    InexactDivision(u8, u8),
}

impl View for Diagnostic {
    type V = DiagnosticView;

    open spec fn view(&self) -> DiagnosticView {
        match *self {
            Diagnostic::ParseFailure => DiagnosticView::ParseFailure,
            Diagnostic::RedefinedInput(name) => DiagnosticView::RedefinedInput(name@),
            Diagnostic::RedefinedVariable(name) => DiagnosticView::RedefinedVariable(name@),
            Diagnostic::UndefinedVariable(name) => DiagnosticView::UndefinedVariable(name@),
            Diagnostic::ArithmeticOverflow(l, op, r) => DiagnosticView::ArithmeticOverflow(l, op, r),
            Diagnostic::ArithmeticUnderflow(l, op, r) => DiagnosticView::ArithmeticUnderflow(
                l,
                op,
                r,
            ),
            Diagnostic::DivisionByZero(l, r) => DiagnosticView::DivisionByZero(l, r),
            Diagnostic::InexactDivision(l, r) => DiagnosticView::InexactDivision(l, r),
        }
    }
}

/// `l`, the operator's symbol and `r` in decimal, separated by single spaces.
pub open spec fn operation_text(l: u8, operator: Operator, r: u8) -> Seq<char> {
    decimal(l as nat) + seq![' '] + operator_symbol(operator) + seq![' '] + decimal(r as nat)
}

/// The text of a diagnostic.
pub open spec fn message_text(diagnostic: DiagnosticView) -> Seq<char> {
    match diagnostic {
        DiagnosticView::ParseFailure => "unsuccessful parse"@,
        DiagnosticView::RedefinedInput(name) => "Redefinition of input variable '"@ + name + "'."@,
        DiagnosticView::RedefinedVariable(name) => "Redefinition of variable '"@ + name + "'."@,
        DiagnosticView::UndefinedVariable(name) => "Use of undefined variable '"@ + name + "'."@,
        DiagnosticView::ArithmeticOverflow(l, op, r) =>
            "Constant evaluation resulted in value greater than 255: "@ + operation_text(l, op, r),
        DiagnosticView::ArithmeticUnderflow(l, op, r) =>
            "Constant evaluation resulted in negative value: "@ + operation_text(l, op, r),
        DiagnosticView::DivisionByZero(l, r) =>
            "Constant evaluation resulted in division by zero: "@ + operation_text(
                l,
                Operator::Divide,
                r,
            ),
        DiagnosticView::InexactDivision(l, r) =>
            "Constant evaluation resulted in non-integer division: "@ + operation_text(
                l,
                Operator::Divide,
                r,
            ),
    }
}

/// Appends `l`, the operator and `r` to `out`.
fn push_operation(out: &mut String, l: u8, operator: Operator, r: u8)
    ensures
        final(out)@ == old(out)@ + operation_text(l, operator, r),
{
    push_decimal(out, l);
    out.push(' ');
    push_operator(out, operator);
    out.push(' ');
    push_decimal(out, r);
    assert(out@ =~= old(out)@ + operation_text(l, operator, r));
}

impl Diagnostic {
    /// The text of the diagnostic, as a message for the user.
    pub fn message(&self) -> (text: String)
        ensures
            text@ == message_text(self@),
    {
        match self {
            Diagnostic::ParseFailure => String::from_str("unsuccessful parse"),
            Diagnostic::RedefinedInput(name) => {
                let mut text = String::from_str("Redefinition of input variable '");
                push_name(&mut text, name);
                text.append("'.");
                text
            },
            Diagnostic::RedefinedVariable(name) => {
                let mut text = String::from_str("Redefinition of variable '");
                push_name(&mut text, name);
                text.append("'.");
                text
            },
            Diagnostic::UndefinedVariable(name) => {
                let mut text = String::from_str("Use of undefined variable '");
                push_name(&mut text, name);
                text.append("'.");
                text
            },
            Diagnostic::ArithmeticOverflow(l, op, r) => {
                let mut text = String::from_str(
                    "Constant evaluation resulted in value greater than 255: ",
                );
                push_operation(&mut text, *l, *op, *r);
                text
            },
            Diagnostic::ArithmeticUnderflow(l, op, r) => {
                let mut text = String::from_str("Constant evaluation resulted in negative value: ");
                push_operation(&mut text, *l, *op, *r);
                text
            },
            Diagnostic::DivisionByZero(l, r) => {
                let mut text = String::from_str(
                    "Constant evaluation resulted in division by zero: ",
                );
                push_operation(&mut text, *l, Operator::Divide, *r);
                text
            },
            Diagnostic::InexactDivision(l, r) => {
                let mut text = String::from_str(
                    "Constant evaluation resulted in non-integer division: ",
                );
                push_operation(&mut text, *l, Operator::Divide, *r);
                text
            },
        }
    }
}

} // verus!
