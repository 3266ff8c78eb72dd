//! The error taxonomy: structured failure values shared by the lexer and the
//! parser. Every production fails fast; the first error is propagated to the
//! caller unchanged.

use vstd::prelude::*;

use crate::ast::LiteralValue;
use crate::ast::TypeDesc;
use crate::tokens::Token;
use crate::tokens::TokenView;

verus! {

/// A failure of the lexer. Lexing either converts the whole input or fails
/// at the first defect.
#[derive(Debug, Clone, PartialEq)]
pub enum LexError {
    /// A numeric run that denotes no integer or float literal; carries the
    /// offending run.
    InvalidNumber(Vec<char>),
    /// The input ended inside a string literal.
    UnterminatedString,
    /// A character that starts no token; carries its index in the input.
    UnexpectedChar(usize),
}

/// The mathematical image of a `LexError`.
pub enum LexErrorView {
    InvalidNumber(Seq<char>),
    UnterminatedString,
    UnexpectedChar(int),
}

impl View for LexError {
    type V = LexErrorView;

    open spec fn view(&self) -> LexErrorView {
        match self {
            LexError::InvalidNumber(v) => LexErrorView::InvalidNumber(v@),
            LexError::UnterminatedString => LexErrorView::UnterminatedString,
            LexError::UnexpectedChar(i) => LexErrorView::UnexpectedChar(*i as int),
        }
    }
}

/// What the parser expected at the point of failure.
#[derive(Debug, Clone, PartialEq)]
pub enum Expected {
    /// One exact token.
    Exact(Token),
    /// Any identifier.
    AnyIdentifier,
    /// A type marker, possibly a nested list type.
    TypeMarker,
    /// The first token of an expression.
    ExpressionStart,
    /// The first token of a statement.
    StatementStart,
}

/// The mathematical image of an `Expected`.
pub enum ExpectedView {
    Exact(TokenView),
    AnyIdentifier,
    TypeMarker,
    ExpressionStart,
    StatementStart,
}

impl View for Expected {
    type V = ExpectedView;

    open spec fn view(&self) -> ExpectedView {
        match self {
            Expected::Exact(t) => ExpectedView::Exact(t@),
            Expected::AnyIdentifier => ExpectedView::AnyIdentifier,
            Expected::TypeMarker => ExpectedView::TypeMarker,
            Expected::ExpressionStart => ExpectedView::ExpressionStart,
            Expected::StatementStart => ExpectedView::StatementStart,
        }
    }
}

/// A failure of the parser or of the inline scope and type checking it
/// performs. Every production propagates the first error unchanged.
#[derive(Debug, PartialEq)]
#[allow(inconsistent_fields)]
pub enum ParseError {
    /// The current token (or the end of input, `None`) is not what the
    /// production needed.
    UnexpectedToken { expected: Expected, found: Option<Token> },
    /// A statement began with a token that starts no production.
    UnknownStatement { found: Token },
    /// An assignment to a name with no binding in any live scope.
    UndeclaredVariable { name: Vec<char> },
    /// A tracked literal value does not fit the declared type it is bound
    /// to; carries the expected type and the offending literal (`Nil` where
    /// the offender is not itself a literal, such as a list literal meeting
    /// a scalar type).
    TypeMismatch { expected: TypeDesc, found: LiteralValue },
}

} // verus!
