//! The errors of parsing and of evaluation.

use crate::lexer::{kind_name, TokenKind};
use vstd::prelude::*;
use vstd::string::*;

verus! {

/// What the parser found wrong with its input.
#[derive(PartialEq, Eq, Structural, Clone, Copy, Debug)]
pub enum ParseErrorKind {
    /// A token of the given kind had to come next.
    Expected(TokenKind),
    /// Nothing that can be assigned follows the `=` of an assignment.
    MissingAssignmentValue,
    /// No expression follows an opening parenthesis.
    MissingParenthesized,
    /// No operand follows a unary operator.
    MissingOperand,
    /// No operand follows a binary operator.
    MissingRightOperand,
    /// The text is no operator.
    UnknownOperator,
    /// An integer literal does not fit in 64 bits.
    NumberOutOfRange,
}

/// What went wrong during an evaluation.
#[derive(PartialEq, Eq, Structural, Clone, Copy, Debug)]
pub enum RuntimeErrorKind {
    /// A variable was read that nothing was assigned to.
    UndefinedVariable,
    /// The target of an assignment is no variable.
    InvalidAssignTarget,
    /// A unary operator other than `+` and `-`.
    InvalidUnaryOperation,
    /// A call of a name that is not bound to a native operation.
    FunctionNotFoundOrInvalid,
    /// Two arrays whose lengths, or two matrices whose shapes, do not fit.
    ShapeMismatch,
    /// A division by an array.
    MatrixDivision,
    /// An array as an exponent.
    InvalidExponent,
    /// A matrix without rows or without columns.
    EmptyMatrix,
    /// A matrix whose rows are not all arrays of one length.
    NotRectangular,
    /// A native operation was not given the matrix that it takes.
    ExpectedMatrix,
    /// An integer result does not fit in 64 bits.
    Overflow,
    /// No scope is left to read from or to write to.
    NoScope,
}

/// An error of the parser or of the evaluator.
#[derive(PartialEq, Eq, Structural, Clone, Copy, Debug)]
pub enum Error {
    ParserError(ParseErrorKind),
    RuntimeError(RuntimeErrorKind),
}

/// What a parse error says.
pub open spec fn parse_error_text(kind: ParseErrorKind) -> Seq<char> {
    match kind {
        ParseErrorKind::Expected(token) => "Expected "@ + kind_name(token),
        ParseErrorKind::MissingAssignmentValue => "Expected right-hand-side of assignment operation"@,
        ParseErrorKind::MissingParenthesized => "Expected expression inside parenthesis"@,
        ParseErrorKind::MissingOperand => "Expected a right-hand-side node"@,
        ParseErrorKind::MissingRightOperand => "Expected right-hand-side expression"@,
        ParseErrorKind::UnknownOperator => "Unknown operator"@,
        ParseErrorKind::NumberOutOfRange => "Number out of range"@,
    }
}

/// What a runtime error says.
pub open spec fn runtime_error_text(kind: RuntimeErrorKind) -> Seq<char> {
    match kind {
        RuntimeErrorKind::UndefinedVariable => "Undefined variable"@,
        RuntimeErrorKind::InvalidAssignTarget => "Invalid assignment target"@,
        RuntimeErrorKind::InvalidUnaryOperation => "Invalid unary operation"@,
        RuntimeErrorKind::FunctionNotFoundOrInvalid => "Function not found or invalid"@,
        RuntimeErrorKind::ShapeMismatch => "Shape mismatch"@,
        RuntimeErrorKind::MatrixDivision => "Matrix division is impossible"@,
        RuntimeErrorKind::InvalidExponent => "Invalid exponent"@,
        RuntimeErrorKind::EmptyMatrix => "Cannot multiply an empty matrix"@,
        RuntimeErrorKind::NotRectangular => "Expected a rectangular matrix"@,
        RuntimeErrorKind::ExpectedMatrix => "Expected a matrix"@,
        RuntimeErrorKind::Overflow => "Integer overflow"@,
        RuntimeErrorKind::NoScope => "No scope"@,
    }
}

/// What an error says: the name of its channel, a colon and the message.
pub open spec fn error_text(error: Error) -> Seq<char> {
    match error {
        Error::ParserError(kind) => "ParserError: "@ + parse_error_text(kind),
        Error::RuntimeError(kind) => "RuntimeError: "@ + runtime_error_text(kind),
    }
}

impl ParseErrorKind {
    pub fn message(&self) -> (text: String)
        ensures
            text@ == parse_error_text(*self),
    {
        match self {
            ParseErrorKind::Expected(token) => String::from_str("Expected ").concat(token.name()),
            ParseErrorKind::MissingAssignmentValue => String::from_str(
                "Expected right-hand-side of assignment operation",
            ),
            ParseErrorKind::MissingParenthesized => String::from_str(
                "Expected expression inside parenthesis",
            ),
            ParseErrorKind::MissingOperand => String::from_str("Expected a right-hand-side node"),
            ParseErrorKind::MissingRightOperand => String::from_str(
                "Expected right-hand-side expression",
            ),
            ParseErrorKind::UnknownOperator => String::from_str("Unknown operator"),
            ParseErrorKind::NumberOutOfRange => String::from_str("Number out of range"),
        }
    }
}

impl RuntimeErrorKind {
    pub fn message(&self) -> (text: String)
        ensures
            text@ == runtime_error_text(*self),
    {
        match self {
            RuntimeErrorKind::UndefinedVariable => String::from_str("Undefined variable"),
            RuntimeErrorKind::InvalidAssignTarget => String::from_str("Invalid assignment target"),
            RuntimeErrorKind::InvalidUnaryOperation => String::from_str("Invalid unary operation"),
            RuntimeErrorKind::FunctionNotFoundOrInvalid => String::from_str(
                "Function not found or invalid",
            ),
            RuntimeErrorKind::ShapeMismatch => String::from_str("Shape mismatch"),
            RuntimeErrorKind::MatrixDivision => String::from_str("Matrix division is impossible"),
            RuntimeErrorKind::InvalidExponent => String::from_str("Invalid exponent"),
            RuntimeErrorKind::EmptyMatrix => String::from_str("Cannot multiply an empty matrix"),
            RuntimeErrorKind::NotRectangular => String::from_str("Expected a rectangular matrix"),
            RuntimeErrorKind::ExpectedMatrix => String::from_str("Expected a matrix"),
            RuntimeErrorKind::Overflow => String::from_str("Integer overflow"),
            RuntimeErrorKind::NoScope => String::from_str("No scope"),
        }
    }
}

impl Error {
    /// The text of the error, as it is shown to a user.
    pub fn message(&self) -> (text: String)
        ensures
            text@ == error_text(*self),
    {
        match self {
            Error::ParserError(kind) => {
                let detail = kind.message();
                String::from_str("ParserError: ").concat(detail.as_str())
            },
            Error::RuntimeError(kind) => {
                let detail = kind.message();
                String::from_str("RuntimeError: ").concat(detail.as_str())
            },
        }
    }
}

} // verus!
