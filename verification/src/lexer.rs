//! The lexical scanner: turns a byte buffer into tokens, one at a time.

use std::ops::Range;
use vstd::prelude::*;
use vstd::std_specs::convert::FromSpecImpl;
use vstd::string::StringSliceAdditionalSpecFns;

pub mod bytes;
pub mod laws;
pub mod pred;
pub mod scanning;
pub mod token;

pub use self::pred::{is_valid_ident, ByteClass};
pub use self::scanning::{scan, tokens, tokens_from};
pub use self::token::{SpecToken, Token, TokenType};

use self::bytes::{
    BANG, CLOSE_BRACE, CLOSE_PAREN, COLON, COMMA, DOT, EQUALS, GREATER, LESS, MINUS, OPEN_BRACE,
    OPEN_PAREN, PLUS, SEMICOLON, SLASH, STAR,
};
use self::pred::{is_ascii_alphabetic, is_ascii_digit, is_ascii_whitespace};
use self::scanning::{lemma_lexeme_end, lemma_run_end, lemma_run_end_unique, run_end};

verus! {

/// A buffer is no longer than `usize` can count.
proof fn lemma_len_fits(contents: &[u8])
    ensures
        contents@.len() <= usize::MAX,
{
    vstd::slice::axiom_spec_len(contents);
}

/// A scanner over a byte buffer. It holds the buffer and the place up to
/// which the buffer has been read.
#[derive(Debug)]
pub struct Lexer<'a> {
    contents: &'a [u8],
    pos: usize,
}

impl<'a> Lexer<'a> {
    #[verifier::type_invariant]
    spec fn in_bounds(self) -> bool {
        self.pos <= self.contents@.len()
    }

    /// The bytes of the buffer.
    pub closed spec fn source(&self) -> Seq<u8> {
        self.contents@
    }

    /// The place up to which the buffer has been read.
    pub closed spec fn offset(&self) -> int {
        self.pos as int
    }

    /// The tokens that are still to come.
    pub open spec fn remaining(&self) -> Seq<SpecToken> {
        tokens_from(self.source(), self.offset())
    }

    #[inline(always)]
    fn advance(&mut self)
        requires
            old(self).pos < old(self).contents@.len(),
        ensures
            final(self).contents == old(self).contents,
            final(self).pos == old(self).pos + 1,
    {
        proof {
            lemma_len_fits(self.contents);
        }
        self.pos += 1
    }

    #[inline(always)]
    fn retreat(&mut self)
        ensures
            final(self).contents == old(self).contents,
            final(self).pos == if old(self).pos > 0 {
                old(self).pos - 1
            } else {
                0
            },
    {
        proof {
            use_type_invariant(&*self);
        }
        if self.pos > 0 {
            self.pos -= 1;
        }
    }

    #[inline(always)]
    fn is_at_end(&self) -> (b: bool)
        ensures
            b == (self.pos >= self.contents@.len()),
    {
        self.pos >= self.contents.len()
    }

    #[inline(always)]
    fn cur_char(&self) -> (c: u8)
        requires
            self.pos < self.contents@.len(),
        ensures
            c == self.contents@[self.pos as int],
    {
        self.contents[self.pos]
    }

    #[inline(always)]
    fn peek_char(&self) -> (c: Option<u8>)
        requires
            self.pos < self.contents@.len(),
        ensures
            c == if self.pos + 1 < self.contents@.len() {
                Some(self.contents@[self.pos + 1])
            } else {
                None
            },
    {
        proof {
            lemma_len_fits(self.contents);
        }
        if self.pos + 1 < self.contents.len() {
            Some(self.contents[self.pos + 1])
        } else {
            None
        }
    }

    #[inline(always)]
    fn slice_len(&self, len: usize) -> (out: &'a [u8])
        requires
            self.pos + len <= self.contents@.len(),
        ensures
            out@ == self.contents@.subrange(self.pos as int, self.pos + len),
    {
        proof {
            lemma_len_fits(self.contents);
        }
        self.slice(self.pos..self.pos + len)
    }

    #[inline(always)]
    fn slice(&self, range: Range<usize>) -> (out: &'a [u8])
        requires
            range.start <= range.end <= self.contents@.len(),
        ensures
            out@ == self.contents@.subrange(range.start as int, range.end as int),
    {
        &self.contents[range]
    }

    fn read_while(&mut self, pred: impl Fn(u8) -> bool) -> (out: &'a [u8])
        requires
            forall|c: u8| call_requires(pred, (c,)),
        ensures
            final(self).contents == old(self).contents,
            old(self).pos <= final(self).pos <= old(self).contents@.len(),
            out@ == old(self).contents@.subrange(old(self).pos as int, final(self).pos as int),
            forall|i: int|
                old(self).pos <= i < final(self).pos ==> call_ensures(
                    pred,
                    (#[trigger] old(self).contents@[i],),
                    true,
                ),
            final(self).pos < old(self).contents@.len() ==> call_ensures(
                pred,
                (old(self).contents@[final(self).pos as int],),
                false,
            ),
    {
        proof {
            use_type_invariant(&*self);
        }
        let start = self.pos;
        while !self.is_at_end()
            invariant
                self.contents == old(self).contents,
                start == old(self).pos,
                start <= self.pos <= self.contents@.len(),
                forall|c: u8| call_requires(pred, (c,)),
                forall|i: int|
                    start <= i < self.pos ==> call_ensures(
                        pred,
                        (#[trigger] self.contents@[i],),
                        true,
                    ),
            ensures
                self.pos < self.contents@.len() ==> call_ensures(
                    pred,
                    (self.contents@[self.pos as int],),
                    false,
                ),
            decreases self.contents@.len() - self.pos,
        {
            let c = self.cur_char();
            if !pred(c) {
                break ;
            }
            self.advance();
        }

        self.slice(start..self.pos)
    }

    #[inline(always)]
    fn read_ident(&mut self) -> (out: &'a [u8])
        ensures
            final(self).contents == old(self).contents,
            final(self).pos == run_end(old(self).contents@, old(self).pos as int, ByteClass::Word),
            out@ == old(self).contents@.subrange(old(self).pos as int, final(self).pos as int),
    {
        proof {
            use_type_invariant(&*self);
        }
        let out = self.read_while(is_valid_ident);
        proof {
            lemma_run_end_unique(
                self.contents@,
                old(self).pos as int,
                self.pos as int,
                ByteClass::Word,
            );
        }
        out
    }

    #[inline(always)]
    fn read_int(&mut self) -> (out: &'a [u8])
        ensures
            final(self).contents == old(self).contents,
            final(self).pos == run_end(old(self).contents@, old(self).pos as int, ByteClass::Digit),
            out@ == old(self).contents@.subrange(old(self).pos as int, final(self).pos as int),
    {
        proof {
            use_type_invariant(&*self);
        }
        let out = self.read_while(is_ascii_digit);
        proof {
            lemma_run_end_unique(
                self.contents@,
                old(self).pos as int,
                self.pos as int,
                ByteClass::Digit,
            );
        }
        out
    }

    fn skip_whitespace(&mut self)
        ensures
            final(self).contents == old(self).contents,
            final(self).pos == run_end(old(self).contents@, old(self).pos as int, ByteClass::Space),
    {
        proof {
            use_type_invariant(&*self);
        }
        while !self.is_at_end() && is_ascii_whitespace(self.cur_char())
            invariant
                self.contents == old(self).contents,
                self.pos <= self.contents@.len(),
                run_end(self.contents@, self.pos as int, ByteClass::Space) == run_end(
                    old(self).contents@,
                    old(self).pos as int,
                    ByteClass::Space,
                ),
            decreases self.contents@.len() - self.pos,
        {
            self.advance()
        }
    }
}

impl<'a> FromSpecImpl<&'a str> for Lexer<'a> {
    open spec fn obeys_from_spec() -> bool {
        true
    }

    closed spec fn from_spec(value: &'a str) -> Self {
        Lexer { contents: choose|b: &'a [u8]| b@ == value.spec_bytes(), pos: 0 }
    }
}

impl<'a> From<&'a str> for Lexer<'a> {
    /// A scanner at the start of the UTF-8 bytes of `value`.
    fn from(value: &'a str) -> (lexer: Self)
        ensures
            lexer.source() == value.spec_bytes(),
            lexer.offset() == 0,
    {
        let contents = value.as_bytes();
        proof {
            let chosen = choose|b: &'a [u8]| b@ == value.spec_bytes();
            assert(chosen@ == contents@);
            assert(chosen =~= contents);
        }
        Self { contents, pos: 0 }
    }
}

impl<'a> Lexer<'a> {
    /// The next token, or `None` at the end of the buffer.
    ///
    /// Blanks before the token are passed over. A word or a number is the
    /// longest run of its bytes; `=`, `!`, `>` and `<` take a following `=`
    /// with them. A byte that starts no token comes out as an `Illegal`
    /// token of its own. After `None`, every further call gives `None`.
    pub fn next(&mut self) -> (tok: Option<Token<'a>>)
        ensures
            final(self).source() == old(self).source(),
            old(self).offset() <= final(self).offset() <= old(self).source().len(),
            tok is Some ==> old(self).offset() < final(self).offset(),
            match scan(old(self).source(), old(self).offset()) {
                Some((t, end)) => tok matches Some(k) && k@ == t && final(self).offset() == end,
                None => tok is None && final(self).offset() == old(self).source().len(),
            },
            match tok {
                Some(k) => old(self).remaining() == seq![k@] + final(self).remaining(),
                None => old(self).remaining().len() == 0 && final(self).remaining().len() == 0,
            },
    {
        proof {
            use_type_invariant(&*self);
            lemma_len_fits(self.contents);
            lemma_run_end(self.contents@, self.pos as int, ByteClass::Space);
        }
        self.skip_whitespace();

        if self.is_at_end() {
            return None;
        }
        proof {
            lemma_lexeme_end(self.contents@, self.pos as int);
        }
        let token = match self.cur_char() {
            DOT => Token::new(TokenType::Dot, self.slice_len(1)),
            COMMA => Token::new(TokenType::Comma, self.slice_len(1)),
            COLON => Token::new(TokenType::Colon, self.slice_len(1)),
            SEMICOLON => Token::new(TokenType::Semicolon, self.slice_len(1)),
            PLUS => Token::new(TokenType::Plus, self.slice_len(1)),
            MINUS => Token::new(TokenType::Minus, self.slice_len(1)),
            STAR => Token::new(TokenType::Star, self.slice_len(1)),
            SLASH => Token::new(TokenType::Slash, self.slice_len(1)),
            OPEN_PAREN => Token::new(TokenType::OpenParen, self.slice_len(1)),
            CLOSE_PAREN => Token::new(TokenType::CloseParen, self.slice_len(1)),
            OPEN_BRACE => Token::new(TokenType::OpenBrace, self.slice_len(1)),
            CLOSE_BRACE => Token::new(TokenType::CloseBrace, self.slice_len(1)),
            EQUALS => {
                let peek = self.peek_char();
                if peek == Some(EQUALS) {
                    self.advance();
                    Token::new(TokenType::Eq, self.slice(self.pos - 1..self.pos + 1))
                } else {
                    Token::new(TokenType::Assign, self.slice_len(1))
                }
            },
            BANG => {
                let peek = self.peek_char();
                if peek == Some(EQUALS) {
                    self.advance();
                    Token::new(TokenType::Neq, self.slice(self.pos - 1..self.pos + 1))
                } else {
                    Token::new(TokenType::Bang, self.slice_len(1))
                }
            },
            GREATER => {
                let peek = self.peek_char();
                if peek == Some(EQUALS) {
                    self.advance();
                    Token::new(TokenType::Gte, self.slice(self.pos - 1..self.pos + 1))
                } else {
                    Token::new(TokenType::Gt, self.slice_len(1))
                }
            },
            LESS => {
                let peek = self.peek_char();
                if peek == Some(EQUALS) {
                    self.advance();
                    Token::new(TokenType::Lte, self.slice(self.pos - 1..self.pos + 1))
                } else {
                    Token::new(TokenType::Lt, self.slice_len(1))
                }
            },
            c if is_ascii_alphabetic(c) => {
                let ident = self.read_ident();
                self.retreat();
                Token::keyword(ident)
            },
            c if is_ascii_digit(c) => {
                let digits = self.read_int();
                self.retreat();
                Token::new(TokenType::IntLit, digits)
            },
            _ => Token::illegal(self.slice_len(1)),
        };

        self.advance();
        return Some(token);
    }
}

} // verus!
