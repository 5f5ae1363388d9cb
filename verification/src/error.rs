//! The failures of all stages, and the text that describes each.

use vstd::prelude::*;
use crate::decimal::{push_decimal, render_nat};
use crate::value::{kind_name, Value, ValueView};

verus! {

/// A failure of lexing, parsing or running. Lines are counted from one.
#[derive(Debug, PartialEq)]
pub enum PalladError {
    UnexpectedToken { got: String, expected: String, line: usize },
    EndOfInput { expected: String, line: usize },
    UnknownCharacter { got: String, line: usize },
    UnknownBuiltin { name: String },
    UndefinedVariable { name: String },
    StackUnderflow { operation: &'static str },
    TypeMismatch { left: Value, right: Value, operation: &'static str },
    InvalidNumber { value: String, line: usize },
    DivisionByZero { operation: &'static str },
    IntDivOverflow,
    RepeatOverflow,
    NegativeRepeat,
    InvalidEscape { char: char, line: usize },
    UnterminatedString { line: usize },
}

/// The mathematical model of a [`PalladError`].
pub enum ErrorView {
    UnexpectedToken { got: Seq<char>, expected: Seq<char>, line: usize },
    EndOfInput { expected: Seq<char>, line: usize },
    UnknownCharacter { got: Seq<char>, line: usize },
    UnknownBuiltin { name: Seq<char> },
    UndefinedVariable { name: Seq<char> },
    StackUnderflow { operation: Seq<char> },
    TypeMismatch { left: ValueView, right: ValueView, operation: Seq<char> },
    InvalidNumber { value: Seq<char>, line: usize },
    DivisionByZero { operation: Seq<char> },
    IntDivOverflow,
    RepeatOverflow,
    NegativeRepeat,
    InvalidEscape { char: char, line: usize },
    UnterminatedString { line: usize },
}

impl View for PalladError {
    type V = ErrorView;

    open spec fn view(&self) -> ErrorView {
        match self {
            PalladError::UnexpectedToken { got, expected, line } => ErrorView::UnexpectedToken {
                got: got@,
                expected: expected@,
                line: *line,
            },
            PalladError::EndOfInput { expected, line } => ErrorView::EndOfInput {
                expected: expected@,
                line: *line,
            },
            PalladError::UnknownCharacter { got, line } => ErrorView::UnknownCharacter {
                got: got@,
                line: *line,
            },
            PalladError::UnknownBuiltin { name } => ErrorView::UnknownBuiltin { name: name@ },
            PalladError::UndefinedVariable { name } => ErrorView::UndefinedVariable { name: name@ },
            PalladError::StackUnderflow { operation } => ErrorView::StackUnderflow {
                operation: operation@,
            },
            PalladError::TypeMismatch { left, right, operation } => ErrorView::TypeMismatch {
                left: left@,
                right: right@,
                operation: operation@,
            },
            PalladError::InvalidNumber { value, line } => ErrorView::InvalidNumber {
                value: value@,
                line: *line,
            },
            PalladError::DivisionByZero { operation } => ErrorView::DivisionByZero {
                operation: operation@,
            },
            PalladError::IntDivOverflow => ErrorView::IntDivOverflow,
            PalladError::RepeatOverflow => ErrorView::RepeatOverflow,
            PalladError::NegativeRepeat => ErrorView::NegativeRepeat,
            PalladError::InvalidEscape { char, line } => ErrorView::InvalidEscape {
                char: *char,
                line: *line,
            },
            PalladError::UnterminatedString { line } => ErrorView::UnterminatedString {
                line: *line,
            },
        }
    }
}

impl DeepView for PalladError {
    type V = ErrorView;

    open spec fn deep_view(&self) -> ErrorView {
        self@
    }
}

impl Clone for PalladError {
    fn clone(&self) -> (r: Self)
        ensures
            r@ == self@,
    {
        match self {
            PalladError::UnexpectedToken { got, expected, line } => PalladError::UnexpectedToken {
                got: got.clone(),
                expected: expected.clone(),
                line: *line,
            },
            PalladError::EndOfInput { expected, line } => PalladError::EndOfInput {
                expected: expected.clone(),
                line: *line,
            },
            PalladError::UnknownCharacter { got, line } => PalladError::UnknownCharacter {
                got: got.clone(),
                line: *line,
            },
            PalladError::UnknownBuiltin { name } => PalladError::UnknownBuiltin {
                name: name.clone(),
            },
            PalladError::UndefinedVariable { name } => PalladError::UndefinedVariable {
                name: name.clone(),
            },
            PalladError::StackUnderflow { operation } => PalladError::StackUnderflow {
                operation: *operation,
            },
            PalladError::TypeMismatch { left, right, operation } => PalladError::TypeMismatch {
                left: left.clone(),
                right: right.clone(),
                operation: *operation,
            },
            PalladError::InvalidNumber { value, line } => PalladError::InvalidNumber {
                value: value.clone(),
                line: *line,
            },
            PalladError::DivisionByZero { operation } => PalladError::DivisionByZero {
                operation: *operation,
            },
            PalladError::IntDivOverflow => PalladError::IntDivOverflow,
            PalladError::RepeatOverflow => PalladError::RepeatOverflow,
            PalladError::NegativeRepeat => PalladError::NegativeRepeat,
            PalladError::InvalidEscape { char, line } => PalladError::InvalidEscape {
                char: *char,
                line: *line,
            },
            PalladError::UnterminatedString { line } => PalladError::UnterminatedString {
                line: *line,
            },
        }
    }
}

/// The start of a message that names a line.
pub open spec fn at_line(line: usize) -> Seq<char> {
    "Line "@ + render_nat(line as nat) + ": "@
}

/// The message that describes a failure.
pub open spec fn message(e: ErrorView) -> Seq<char> {
    match e {
        ErrorView::UnexpectedToken { got, expected, line } => at_line(line) + "Expected "@
            + expected + ", got "@ + got,
        ErrorView::EndOfInput { expected, line } => at_line(line) + "Expected "@ + expected
            + ", got end of input"@,
        ErrorView::UnknownCharacter { got, line } => at_line(line) + "Unknown character: "@ + got,
        ErrorView::UnknownBuiltin { name } => "Unknown builtin: "@ + name,
        ErrorView::UndefinedVariable { name } => "Undefined variable: "@ + name,
        ErrorView::StackUnderflow { operation } => "Stack underflow: "@ + operation,
        ErrorView::TypeMismatch { left, right, operation } => "Cannot "@ + operation + " '"@
            + kind_name(left) + "' and '"@ + kind_name(right) + "'"@,
        ErrorView::InvalidNumber { value, line } => at_line(line) + "Invalid number: "@ + value,
        ErrorView::DivisionByZero { operation } => "Division by zero at "@ + operation
            + " operation is not valid"@,
        ErrorView::IntDivOverflow => "Integer division overflow"@,
        ErrorView::RepeatOverflow => "String repeat overflow"@,
        ErrorView::NegativeRepeat => "String repeat count can't be negative"@,
        ErrorView::InvalidEscape { char, line } => at_line(line) + "Invalid escaped character: "@
            + seq![char],
        ErrorView::UnterminatedString { line } => at_line(line) + "Unterminated string"@,
    }
}

/// A new text that starts with "Line ", the line's number, a colon and a
/// space.
fn line_prefix(line: usize) -> (out: String)
    ensures
        out@ == at_line(line),
{
    let mut out = String::from_str("Line ");
    push_decimal(&mut out, line as u64);
    out.append(": ");
    out
}

impl PalladError {
    /// The message that describes this failure.
    pub fn to_string(&self) -> (out: String)
        ensures
            out@ == message(self@),
    {
        match self {
            PalladError::UnexpectedToken { got, expected, line } => {
                let mut out = line_prefix(*line);
                out.append("Expected ");
                out.append(expected.as_str());
                out.append(", got ");
                out.append(got.as_str());
                out
            },
            PalladError::EndOfInput { expected, line } => {
                let mut out = line_prefix(*line);
                out.append("Expected ");
                out.append(expected.as_str());
                out.append(", got end of input");
                out
            },
            PalladError::UnknownCharacter { got, line } => {
                let mut out = line_prefix(*line);
                out.append("Unknown character: ");
                out.append(got.as_str());
                out
            },
            PalladError::UnknownBuiltin { name } => {
                let mut out = String::from_str("Unknown builtin: ");
                out.append(name.as_str());
                out
            },
            PalladError::UndefinedVariable { name } => {
                let mut out = String::from_str("Undefined variable: ");
                out.append(name.as_str());
                out
            },
            PalladError::StackUnderflow { operation } => {
                let mut out = String::from_str("Stack underflow: ");
                out.append(operation);
                out
            },
            PalladError::TypeMismatch { left, right, operation } => {
                let mut out = String::from_str("Cannot ");
                out.append(operation);
                out.append(" '");
                out.append(left.kind_name());
                out.append("' and '");
                out.append(right.kind_name());
                out.append("'");
                out
            },
            PalladError::InvalidNumber { value, line } => {
                let mut out = line_prefix(*line);
                out.append("Invalid number: ");
                out.append(value.as_str());
                out
            },
            PalladError::DivisionByZero { operation } => {
                let mut out = String::from_str("Division by zero at ");
                out.append(operation);
                out.append(" operation is not valid");
                out
            },
            PalladError::IntDivOverflow => String::from_str("Integer division overflow"),
            PalladError::RepeatOverflow => String::from_str("String repeat overflow"),
            PalladError::NegativeRepeat => String::from_str(
                "String repeat count can't be negative",
            ),
            PalladError::InvalidEscape { char, line } => {
                let mut out = line_prefix(*line);
                out.append("Invalid escaped character: ");
                out.push(*char);
                out
            },
            PalladError::UnterminatedString { line } => {
                let mut out = line_prefix(*line);
                out.append("Unterminated string");
                out
            },
        }
    }
}

} // verus!
