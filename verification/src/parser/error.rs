//! What can go wrong while parsing.

use vstd::prelude::*;

use crate::ast::IntLitParseError;
use crate::lexer::{SpecToken, Token, TokenType};

verus! {

/// Why parsing stopped.
#[derive(Debug, PartialEq, Eq)]
pub enum Error<'t> {
    /// The input ended where a statement could start: there are no more
    /// statements.
    NoMore,
    /// The input ended inside a statement.
    Eof,
    /// The current token is of none of the kinds that may stand here.
    WrongToken { expected: Vec<TokenType>, got: Token<'t> },
    /// The lexeme of an integer literal writes no number that fits.
    BadIntLit(IntLitParseError),
}

/// An error as a mathematical value.
pub enum SpecError {
    NoMore,
    Eof,
    WrongToken { expected: Seq<TokenType>, got: SpecToken },
    BadIntLit(IntLitParseError),
}

impl<'t> View for Error<'t> {
    type V = SpecError;

    open spec fn view(&self) -> SpecError {
        match self {
            Error::NoMore => SpecError::NoMore,
            Error::Eof => SpecError::Eof,
            Error::WrongToken { expected, got } => SpecError::WrongToken {
                expected: expected@,
                got: got@,
            },
            Error::BadIntLit(why) => SpecError::BadIntLit(*why),
        }
    }
}

impl<'t> Error<'t> {
    /// The error for a token `got` that stands where one of the kinds
    /// `expected` should.
    pub fn wrong_token(expected: Vec<TokenType>, got: Token<'t>) -> (err: Self)
        ensures
            err == (Error::WrongToken { expected, got }),
            err@ == (SpecError::WrongToken { expected: expected@, got: got@ }),
    {
        Self::WrongToken { expected, got }
    }
}

/// What a parsing function returns.
pub type ParserResult<'a, T> = Result<T, Error<'a>>;

} // verus!
