//! Tokens: a kind, and the exact piece of source text that produced it.

use vstd::prelude::*;

use super::bytes::{LOWER_E, LOWER_F, LOWER_L, LOWER_N, LOWER_T};

verus! {

/// The kind of a token.
#[derive(Debug, PartialEq, Eq, Clone, Copy, Structural)]
pub enum TokenType {
    Dot,
    Comma,
    Semicolon,
    Colon,
    Plus,
    Minus,
    Star,
    Slash,
    Ident,
    Let,
    Fn,
    Assign,
    Bang,
    Eq,
    Neq,
    Gt,
    Lt,
    Gte,
    Lte,
    IntLit,
    OpenParen,
    CloseParen,
    OpenBrace,
    CloseBrace,
    Illegal,
}

/// A token as a mathematical value: its kind and the bytes of its lexeme.
pub struct SpecToken {
    pub ty: TokenType,
    pub lit: Seq<u8>,
}

/// A token: its kind and its lexeme, borrowed from the source buffer.
#[derive(Debug, PartialEq, Eq, Clone, Copy)]
pub struct Token<'a> {
    pub ty: TokenType,
    pub lit: &'a [u8],
}

impl<'a> View for Token<'a> {
    type V = SpecToken;

    open spec fn view(&self) -> SpecToken {
        SpecToken { ty: self.ty, lit: self.lit@ }
    }
}

/// The bytes of the keyword `let`.
pub open spec fn let_bytes() -> Seq<u8> {
    seq![LOWER_L, LOWER_E, LOWER_T]
}

/// The bytes of the keyword `fn`.
pub open spec fn fn_bytes() -> Seq<u8> {
    seq![LOWER_F, LOWER_N]
}

/// The kind of a word: a keyword's own kind, `Ident` for any other word.
pub open spec fn word_kind(lit: Seq<u8>) -> TokenType {
    if lit == let_bytes() {
        TokenType::Let
    } else if lit == fn_bytes() {
        TokenType::Fn
    } else {
        TokenType::Ident
    }
}

impl<'a> Token<'a> {
    /// A token of kind `ty` with lexeme `lit`.
    pub fn new(ty: TokenType, lit: &'a [u8]) -> (tok: Self)
        ensures
            tok.ty == ty,
            tok.lit == lit,
    {
        Self { ty, lit }
    }

    /// An `Illegal` token with lexeme `lit`.
    pub fn illegal(lit: &'a [u8]) -> (tok: Self)
        ensures
            tok.ty == TokenType::Illegal,
            tok.lit == lit,
    {
        Self { ty: TokenType::Illegal, lit }
    }

    /// The token for the word `lit`: of the keyword's kind where `lit` is a
    /// keyword, of kind `Ident` otherwise.
    pub fn keyword(lit: &'a [u8]) -> (tok: Self)
        ensures
            tok.ty == word_kind(lit@),
            tok.lit == lit,
    {
        let ty = if lit.len() == 3 && lit[0] == LOWER_L && lit[1] == LOWER_E && lit[2] == LOWER_T {
            assert(lit@ =~= let_bytes());
            TokenType::Let
        } else if lit.len() == 2 && lit[0] == LOWER_F && lit[1] == LOWER_N {
            assert(lit@ =~= fn_bytes());
            TokenType::Fn
        } else {
            assert(lit@ != let_bytes()) by {
                if lit@ == let_bytes() {
                    assert(let_bytes().len() == 3);
                    assert(let_bytes()[0] == LOWER_L);
                }
            }
            TokenType::Ident
        };
        Self { ty, lit }
    }
}

} // verus!
