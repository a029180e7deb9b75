//! The failures of each stage, and the one type that gathers them.

use vstd::prelude::*;

verus! {

/// Why a text could not be split into tokens.
#[derive(Debug)]
pub enum LexError {
    /// A character that starts no token; it is held as a text of one
    /// character.
    IllegalToken(String),
    /// A run of digits and decimal points that is no number.
    IllegalNumber(String),
    /// The text holds a character outside ASCII.
    NonAsciiInput,
}

/// The content of a [`LexError`].
pub enum LexErrorView {
    IllegalToken(Seq<char>),
    IllegalNumber(Seq<char>),
    NonAsciiInput,
}

impl View for LexError {
    type V = LexErrorView;

    open spec fn view(&self) -> LexErrorView {
        match self {
            LexError::IllegalToken(t) => LexErrorView::IllegalToken(t@),
            LexError::IllegalNumber(t) => LexErrorView::IllegalNumber(t@),
            LexError::NonAsciiInput => LexErrorView::NonAsciiInput,
        }
    }
}

/// Why a sequence of tokens is no expression.
#[derive(Debug, Clone, Copy, PartialEq, Eq, Structural)]
pub enum ParseError {
    /// An opening parenthesis whose closing one is not the last token.
    UnmatchedParens,
    /// A token where none may stand.
    UnmatchedToken,
    /// A token that is no binary operator was applied as one.
    ExpectedBinaryOperator,
    /// The left side of an assignment is not a bare variable.
    ExpectedVariable,
    /// An operand was expected where the tokens end.
    EmptyInput,
}

/// Why a text could not be evaluated.
#[derive(Debug)]
pub enum EvalError {
    /// The text could not be split into tokens.
    LexError(LexError),
    /// The tokens are no expression.
    ParseError(ParseError),
    /// There was nothing to evaluate.
    EmptyInput,
    /// A variable was read before any value was assigned to it.
    UnassignedVariable(String),
    /// The divisor of a division was zero.
    DivisionByZero,
    /// A result is too large or too fine to be held.
    OutOfRange,
}

/// The content of an [`EvalError`].
pub enum EvalErrorView {
    LexError(LexErrorView),
    ParseError(ParseError),
    EmptyInput,
    UnassignedVariable(Seq<char>),
    DivisionByZero,
    OutOfRange,
}

impl View for EvalError {
    type V = EvalErrorView;

    open spec fn view(&self) -> EvalErrorView {
        match self {
            EvalError::LexError(e) => EvalErrorView::LexError(e@),
            EvalError::ParseError(e) => EvalErrorView::ParseError(*e),
            EvalError::EmptyInput => EvalErrorView::EmptyInput,
            EvalError::UnassignedVariable(n) => EvalErrorView::UnassignedVariable(n@),
            EvalError::DivisionByZero => EvalErrorView::DivisionByZero,
            EvalError::OutOfRange => EvalErrorView::OutOfRange,
        }
    }
}

} // verus!
