//! What scanning gives: for a buffer and a place in it, the token that
//! starts there and the tokens from there on.

use vstd::prelude::*;

use super::bytes::{
    BANG, CLOSE_BRACE, CLOSE_PAREN, COLON, COMMA, DOT, EQUALS, GREATER, LESS, MINUS, OPEN_BRACE,
    OPEN_PAREN, PLUS, SEMICOLON, SLASH, STAR,
};
use super::pred::{is_alpha_byte, is_digit_byte, is_space_byte, ByteClass};
use super::token::{word_kind, SpecToken, TokenType};

verus! {

/// Where the longest run of bytes of `class` that starts at `start` ends.
pub open spec fn run_end(s: Seq<u8>, start: int, class: ByteClass) -> int
    decreases s.len() - start,
{
    if 0 <= start < s.len() && class.has(s[start]) {
        run_end(s, start + 1, class)
    } else {
        start
    }
}

/// The kind of a token that is a single byte `c`, whatever follows it;
/// `None` for the bytes that start a longer token or may do so.
pub open spec fn single_kind(c: u8) -> Option<TokenType> {
    if c == DOT {
        Some(TokenType::Dot)
    } else if c == COMMA {
        Some(TokenType::Comma)
    } else if c == COLON {
        Some(TokenType::Colon)
    } else if c == SEMICOLON {
        Some(TokenType::Semicolon)
    } else if c == PLUS {
        Some(TokenType::Plus)
    } else if c == MINUS {
        Some(TokenType::Minus)
    } else if c == STAR {
        Some(TokenType::Star)
    } else if c == SLASH {
        Some(TokenType::Slash)
    } else if c == OPEN_PAREN {
        Some(TokenType::OpenParen)
    } else if c == CLOSE_PAREN {
        Some(TokenType::CloseParen)
    } else if c == OPEN_BRACE {
        Some(TokenType::OpenBrace)
    } else if c == CLOSE_BRACE {
        Some(TokenType::CloseBrace)
    } else {
        None
    }
}

/// For a byte `c` that an `=` may follow to form a longer operator: the kind
/// of `c` alone and the kind of `c` with `=`.
pub open spec fn paired_kinds(c: u8) -> Option<(TokenType, TokenType)> {
    if c == EQUALS {
        Some((TokenType::Assign, TokenType::Eq))
    } else if c == BANG {
        Some((TokenType::Bang, TokenType::Neq))
    } else if c == GREATER {
        Some((TokenType::Gt, TokenType::Gte))
    } else if c == LESS {
        Some((TokenType::Lt, TokenType::Lte))
    } else {
        None
    }
}

/// Whether the byte after position `p` is `=`.
pub open spec fn eq_follows(s: Seq<u8>, p: int) -> bool {
    p + 1 < s.len() && s[p + 1] == EQUALS
}

/// Where the token that starts at `p` ends. `p` is the place of a byte that
/// is no blank.
pub open spec fn lexeme_end(s: Seq<u8>, p: int) -> int {
    let c = s[p];
    if is_alpha_byte(c) {
        run_end(s, p, ByteClass::Word)
    } else if is_digit_byte(c) {
        run_end(s, p, ByteClass::Digit)
    } else if paired_kinds(c) is Some && eq_follows(s, p) {
        p + 2
    } else {
        p + 1
    }
}

/// The kind of the token that starts at `p`.
pub open spec fn lexeme_kind(s: Seq<u8>, p: int) -> TokenType {
    let c = s[p];
    if is_alpha_byte(c) {
        word_kind(s.subrange(p, run_end(s, p, ByteClass::Word)))
    } else if is_digit_byte(c) {
        TokenType::IntLit
    } else if let Some((alone, with_eq)) = paired_kinds(c) {
        if eq_follows(s, p) {
            with_eq
        } else {
            alone
        }
    } else if let Some(kind) = single_kind(c) {
        kind
    } else {
        TokenType::Illegal
    }
}

/// The token that starts at `p`.
pub open spec fn token_at(s: Seq<u8>, p: int) -> SpecToken {
    SpecToken { ty: lexeme_kind(s, p), lit: s.subrange(p, lexeme_end(s, p)) }
}

/// One step of scanning from `p`: the blanks from `p` on are passed over;
/// then comes the next token with the place where it ends, or `None` where
/// nothing but blanks was left.
pub open spec fn scan(s: Seq<u8>, p: int) -> Option<(SpecToken, int)> {
    let q = run_end(s, p, ByteClass::Space);
    if 0 <= q < s.len() {
        Some((token_at(s, q), lexeme_end(s, q)))
    } else {
        None
    }
}

/// A run ends at or after its start and within the buffer; all its bytes are
/// of the class, and the byte at its end, if there is one, is not.
pub proof fn lemma_run_end(s: Seq<u8>, start: int, class: ByteClass)
    requires
        0 <= start <= s.len(),
    ensures
        start <= run_end(s, start, class) <= s.len(),
        forall|i: int| start <= i < run_end(s, start, class) ==> class.has(#[trigger] s[i]),
        run_end(s, start, class) < s.len() ==> !class.has(s[run_end(s, start, class)]),
    decreases s.len() - start,
{
    if start < s.len() && class.has(s[start]) {
        lemma_run_end(s, start + 1, class);
    }
}

/// A stretch of bytes of one class that is followed by a byte of another
/// class, or by the end of the buffer, is the run that starts where it does.
pub proof fn lemma_run_end_unique(s: Seq<u8>, start: int, end: int, class: ByteClass)
    requires
        0 <= start <= end <= s.len(),
        forall|i: int| start <= i < end ==> class.has(#[trigger] s[i]),
        end < s.len() ==> !class.has(s[end]),
    ensures
        run_end(s, start, class) == end,
    decreases end - start,
{
    if start < end {
        lemma_run_end_unique(s, start + 1, end, class);
    }
}

/// A token is not empty and ends within the buffer.
pub proof fn lemma_lexeme_end(s: Seq<u8>, p: int)
    requires
        0 <= p < s.len(),
    ensures
        p < lexeme_end(s, p) <= s.len(),
{
    lemma_run_end(s, p, ByteClass::Word);
    lemma_run_end(s, p, ByteClass::Digit);
    if is_alpha_byte(s[p]) {
        assert(run_end(s, p, ByteClass::Word) == run_end(s, p + 1, ByteClass::Word));
        lemma_run_end(s, p + 1, ByteClass::Word);
    } else if is_digit_byte(s[p]) {
        assert(run_end(s, p, ByteClass::Digit) == run_end(s, p + 1, ByteClass::Digit));
        lemma_run_end(s, p + 1, ByteClass::Digit);
    }
}

/// All the tokens from `p` on, in order.
pub open spec fn tokens_from(s: Seq<u8>, p: int) -> Seq<SpecToken>
    decreases s.len() - p,
    via tokens_from_decreases
{
    match scan(s, p) {
        Some((t, end)) => seq![t] + tokens_from(s, end),
        None => Seq::empty(),
    }
}

#[via_fn]
proof fn tokens_from_decreases(s: Seq<u8>, p: int) {
    if scan(s, p) is Some {
        let q = run_end(s, p, ByteClass::Space);
        if 0 <= p <= s.len() {
            lemma_run_end(s, p, ByteClass::Space);
        }
        lemma_lexeme_end(s, q);
    }
}

/// All the tokens of a buffer.
pub open spec fn tokens(s: Seq<u8>) -> Seq<SpecToken> {
    tokens_from(s, 0)
}

impl SpecToken {
    /// Whether the token is one that scanning can give: its lexeme is not
    /// empty, and scanning the lexeme alone gives this token and nothing
    /// more. So the lexeme of an `Ident` is a word that is no keyword, that
    /// of an `IntLit` is digits, and that of any other token is the text that
    /// its kind stands for.
    pub open spec fn well_formed(self) -> bool {
        &&& self.lit.len() > 0
        &&& !is_space_byte(self.lit[0])
        &&& token_at(self.lit, 0) == self
        &&& lexeme_end(self.lit, 0) == self.lit.len()
    }
}

/// Whether every token of `ts` is well formed.
pub open spec fn all_well_formed(ts: Seq<SpecToken>) -> bool {
    forall|i: int| 0 <= i < ts.len() ==> (#[trigger] ts[i]).well_formed()
}

/// A token cut out of a buffer is the token of its own lexeme.
pub proof fn lemma_token_at_well_formed(s: Seq<u8>, p: int)
    requires
        0 <= p < s.len(),
        !is_space_byte(s[p]),
    ensures
        token_at(s, p).well_formed(),
{
    let end = lexeme_end(s, p);
    let lit = s.subrange(p, end);
    lemma_lexeme_end(s, p);
    assert(lit[0] == s[p]);
    if is_alpha_byte(s[p]) {
        lemma_run_end(s, p, ByteClass::Word);
        assert forall|i: int| 0 <= i < lit.len() implies ByteClass::Word.has(#[trigger] lit[i]) by {
            assert(lit[i] == s[p + i]);
        }
        lemma_run_end_unique(lit, 0, lit.len() as int, ByteClass::Word);
        assert(lit.subrange(0, lit.len() as int) =~= lit);
    } else if is_digit_byte(s[p]) {
        lemma_run_end(s, p, ByteClass::Digit);
        assert forall|i: int| 0 <= i < lit.len() implies ByteClass::Digit.has(
            #[trigger] lit[i],
        ) by {
            assert(lit[i] == s[p + i]);
        }
        lemma_run_end_unique(lit, 0, lit.len() as int, ByteClass::Digit);
        assert(lit.subrange(0, lit.len() as int) =~= lit);
    } else if paired_kinds(s[p]) is Some && eq_follows(s, p) {
        assert(lit[1] == s[p + 1]);
        assert(lit.subrange(0, 2) =~= lit);
    } else {
        assert(lit.subrange(0, 1) =~= lit);
    }
}

/// Every token that scanning gives is well formed.
pub proof fn lemma_tokens_well_formed(s: Seq<u8>, p: int)
    requires
        0 <= p <= s.len(),
    ensures
        all_well_formed(tokens_from(s, p)),
    decreases s.len() - p,
{
    lemma_run_end(s, p, ByteClass::Space);
    match scan(s, p) {
        Some((t, end)) => {
            let q = run_end(s, p, ByteClass::Space);
            lemma_lexeme_end(s, q);
            lemma_token_at_well_formed(s, q);
            lemma_tokens_well_formed(s, end);
            assert forall|i: int| 0 <= i < tokens_from(s, p).len() implies (#[trigger] tokens_from(
                s,
                p,
            )[i]).well_formed() by {
                if i > 0 {
                    assert(tokens_from(s, p)[i] == tokens_from(s, end)[i - 1]);
                }
            }
        },
        None => {},
    }
}

} // verus!
