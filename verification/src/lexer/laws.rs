//! What holds of scanning: which token each kind of text gives, and that
//! blanks part tokens and do nothing else.

use vstd::prelude::*;

use super::bytes::{EQUALS, LOWER_F, LOWER_L};
use super::pred::{
    all_blanks, is_alpha_byte, is_digit_byte, is_number, is_space_byte, is_word, is_word_byte,
    ByteClass,
};
use super::scanning::{
    eq_follows, lemma_lexeme_end, lemma_run_end, lemma_run_end_unique, lemma_token_at_well_formed,
    lemma_tokens_well_formed, lexeme_end, paired_kinds, run_end, scan, single_kind, tokens,
    tokens_from,
};
use super::token::{fn_bytes, let_bytes, word_kind, SpecToken, TokenType};

verus! {

/// The kind of the operator or punctuation mark that `s` writes, if it
/// writes one: a single byte, or one of `=`, `!`, `>`, `<` with `=` after it.
pub open spec fn operator_kind(s: Seq<u8>) -> Option<TokenType> {
    if s.len() == 1 {
        match paired_kinds(s[0]) {
            Some((alone, _)) => Some(alone),
            None => single_kind(s[0]),
        }
    } else if s.len() == 2 && s[1] == EQUALS {
        match paired_kinds(s[0]) {
            Some((_, with_eq)) => Some(with_eq),
            None => None,
        }
    } else {
        None
    }
}

/// A run that starts inside a stretch of bytes of its class ends where the
/// run from the end of the stretch ends.
pub proof fn lemma_run_end_through(s: Seq<u8>, from: int, to: int, class: ByteClass)
    requires
        0 <= from <= to <= s.len(),
        forall|i: int| from <= i < to ==> class.has(#[trigger] s[i]),
    ensures
        run_end(s, from, class) == run_end(s, to, class),
    decreases to - from,
{
    if from < to {
        lemma_run_end_through(s, from + 1, to, class);
    }
}

/// A run in the second of two joined buffers ends where it ends in that
/// buffer alone.
pub proof fn lemma_run_end_shift(x: Seq<u8>, b: Seq<u8>, k: int, class: ByteClass)
    requires
        0 <= k <= b.len(),
    ensures
        run_end(x + b, x.len() + k, class) == x.len() + run_end(b, k, class),
{
    let end = run_end(b, k, class);
    lemma_run_end(b, k, class);
    assert forall|i: int| x.len() + k <= i < x.len() + end implies class.has(
        #[trigger] (x + b)[i],
    ) by {
        assert((x + b)[i] == b[i - x.len()]);
    }
    if end < b.len() {
        assert((x + b)[x.len() + end] == b[end]);
    }
    lemma_run_end_unique(x + b, x.len() + k, x.len() + end, class);
}

/// One step of scanning in the second of two joined buffers gives what it
/// gives in that buffer alone.
pub proof fn lemma_scan_shift(x: Seq<u8>, b: Seq<u8>, k: int)
    requires
        0 <= k <= b.len(),
    ensures
        scan(x + b, x.len() + k) == match scan(b, k) {
            Some((t, end)) => Some((t, x.len() + end)),
            None => None,
        },
{
    let s = x + b;
    let n = x.len() as int;
    lemma_run_end_shift(x, b, k, ByteClass::Space);
    lemma_run_end(b, k, ByteClass::Space);
    let q = run_end(b, k, ByteClass::Space);
    if q < b.len() {
        assert(s[n + q] == b[q]);
        lemma_run_end_shift(x, b, q, ByteClass::Word);
        lemma_run_end_shift(x, b, q, ByteClass::Digit);
        lemma_run_end(b, q, ByteClass::Word);
        lemma_lexeme_end(b, q);
        if q + 1 < b.len() {
            assert(s[n + q + 1] == b[q + 1]);
        }
        assert(eq_follows(s, n + q) == eq_follows(b, q));
        assert(lexeme_end(s, n + q) == n + lexeme_end(b, q));
        assert(s.subrange(n + q, n + lexeme_end(b, q)) =~= b.subrange(q, lexeme_end(b, q)));
        assert(s.subrange(n + q, n + run_end(b, q, ByteClass::Word)) =~= b.subrange(
            q,
            run_end(b, q, ByteClass::Word),
        ));
    }
}

/// The tokens from a place in the second of two joined buffers are those
/// from that place in the second buffer alone.
pub proof fn lemma_tokens_shift(x: Seq<u8>, b: Seq<u8>, k: int)
    requires
        0 <= k <= b.len(),
    ensures
        tokens_from(x + b, x.len() + k) == tokens_from(b, k),
    decreases b.len() - k,
{
    lemma_scan_shift(x, b, k);
    lemma_run_end(b, k, ByteClass::Space);
    match scan(b, k) {
        Some((t, end)) => {
            lemma_lexeme_end(b, run_end(b, k, ByteClass::Space));
            lemma_tokens_shift(x, b, end);
        },
        None => {},
    }
}

/// One step of scanning inside the first of two joined buffers gives what it
/// gives in that buffer alone, if the second buffer is empty or starts with
/// a blank and the first has a token left.
pub proof fn lemma_scan_prefix(a: Seq<u8>, r: Seq<u8>, p: int)
    requires
        0 <= p <= a.len(),
        r.len() == 0 || is_space_byte(r[0]),
        scan(a, p) is Some,
    ensures
        scan(a + r, p) == scan(a, p),
{
    let s = a + r;
    let q = run_end(a, p, ByteClass::Space);
    lemma_run_end(a, p, ByteClass::Space);
    assert forall|i: int| p <= i < q implies ByteClass::Space.has(#[trigger] s[i]) by {
        assert(s[i] == a[i]);
    }
    assert(s[q] == a[q]);
    lemma_run_end_unique(s, p, q, ByteClass::Space);
    lemma_lexeme_end(a, q);
    let end = lexeme_end(a, q);
    if is_alpha_byte(a[q]) {
        lemma_run_end(a, q, ByteClass::Word);
        assert forall|i: int| q <= i < end implies ByteClass::Word.has(#[trigger] s[i]) by {
            assert(s[i] == a[i]);
        }
        if end < a.len() {
            assert(s[end] == a[end]);
        } else if r.len() > 0 {
            assert(s[end] == r[0]);
        }
        lemma_run_end_unique(s, q, end, ByteClass::Word);
    } else if is_digit_byte(a[q]) {
        lemma_run_end(a, q, ByteClass::Digit);
        assert forall|i: int| q <= i < end implies ByteClass::Digit.has(#[trigger] s[i]) by {
            assert(s[i] == a[i]);
        }
        if end < a.len() {
            assert(s[end] == a[end]);
        } else if r.len() > 0 {
            assert(s[end] == r[0]);
        }
        lemma_run_end_unique(s, q, end, ByteClass::Digit);
    } else {
        if q + 1 < a.len() {
            assert(s[q + 1] == a[q + 1]);
        } else if r.len() > 0 {
            assert(s[q + 1] == r[0]);
        }
        assert(eq_follows(s, q) == eq_follows(a, q));
    }
    assert(lexeme_end(s, q) == end);
    assert(s.subrange(q, end) =~= a.subrange(q, end));
}

/// The tokens of two joined buffers, the second of which is empty or starts
/// with a blank, are the tokens of the first and then those that start in
/// the second.
pub proof fn lemma_tokens_prefix(a: Seq<u8>, r: Seq<u8>, p: int)
    requires
        0 <= p <= a.len(),
        r.len() == 0 || is_space_byte(r[0]),
    ensures
        tokens_from(a + r, p) == tokens_from(a, p) + tokens_from(a + r, a.len() as int),
    decreases a.len() - p,
{
    let s = a + r;
    lemma_run_end(a, p, ByteClass::Space);
    match scan(a, p) {
        Some((t, end)) => {
            lemma_scan_prefix(a, r, p);
            lemma_lexeme_end(a, run_end(a, p, ByteClass::Space));
            lemma_tokens_prefix(a, r, end);
            assert(tokens_from(s, p) =~= tokens_from(a, p) + tokens_from(s, a.len() as int));
        },
        None => {
            assert forall|i: int| p <= i < a.len() implies ByteClass::Space.has(
                #[trigger] s[i],
            ) by {
                assert(s[i] == a[i]);
            }
            lemma_run_end_through(s, p, a.len() as int, ByteClass::Space);
            assert(scan(s, p) == scan(s, a.len() as int));
            assert(tokens_from(s, p) =~= tokens_from(a, p) + tokens_from(s, a.len() as int));
        },
    }
}

/// A word at the start of a buffer, up to a byte that cannot stand in a
/// word or to the end of the buffer, is one token: of the keyword's kind
/// where the word is a keyword, an `Ident` otherwise. Its lexeme is the
/// word, and the tokens of the rest follow it.
pub proof fn law_word(w: Seq<u8>, r: Seq<u8>)
    requires
        is_word(w),
        r.len() == 0 || !is_word_byte(r[0]),
    ensures
        tokens(w + r) == seq![SpecToken { ty: word_kind(w), lit: w }] + tokens(r),
{
    let s = w + r;
    let n = w.len() as int;
    assert(s[0] == w[0]);
    assert forall|i: int| 0 <= i < n implies ByteClass::Word.has(#[trigger] s[i]) by {
        assert(s[i] == w[i]);
    }
    if r.len() > 0 {
        assert(s[n] == r[0]);
    }
    lemma_run_end_unique(s, 0, n, ByteClass::Word);
    assert(s.subrange(0, n) =~= w);
    lemma_tokens_shift(w, r, 0);
}

/// A number at the start of a buffer, up to a byte that is no digit or to
/// the end of the buffer, is one `IntLit` token. Its lexeme is all the
/// digits, leading zeros too, and the tokens of the rest follow it.
pub proof fn law_number(d: Seq<u8>, r: Seq<u8>)
    requires
        is_number(d),
        r.len() == 0 || !is_digit_byte(r[0]),
    ensures
        tokens(d + r) == seq![SpecToken { ty: TokenType::IntLit, lit: d }] + tokens(r),
{
    let s = d + r;
    let n = d.len() as int;
    assert(s[0] == d[0]);
    assert(is_digit_byte(d[0]));
    assert forall|i: int| 0 <= i < n implies ByteClass::Digit.has(#[trigger] s[i]) by {
        assert(s[i] == d[i]);
    }
    if r.len() > 0 {
        assert(s[n] == r[0]);
    }
    lemma_run_end_unique(s, 0, n, ByteClass::Digit);
    assert(s.subrange(0, n) =~= d);
    lemma_tokens_shift(d, r, 0);
}

/// An operator or punctuation mark at the start of a buffer is one token of
/// its kind, with the mark as its lexeme, and the tokens of the rest
/// follow it. One of `=`, `!`, `>`, `<` stands alone only where no `=`
/// follows it.
pub proof fn law_operator(op: Seq<u8>, r: Seq<u8>)
    requires
        operator_kind(op) is Some,
        op.len() == 1 && paired_kinds(op[0]) is Some ==> r.len() == 0 || r[0] != EQUALS,
    ensures
        tokens(op + r) == seq![SpecToken { ty: operator_kind(op)->0, lit: op }] + tokens(r),
{
    let s = op + r;
    let n = op.len() as int;
    assert(s[0] == op[0]);
    if n == 2 {
        assert(s[1] == op[1]);
    } else if r.len() > 0 {
        assert(s[1] == r[0]);
    }
    assert(s.subrange(0, n) =~= op);
    lemma_tokens_shift(op, r, 0);
}

/// A byte that is no blank and starts no token is an `Illegal` token of its
/// own, and the tokens of the rest follow it.
pub proof fn law_illegal(c: u8, r: Seq<u8>)
    requires
        !is_space_byte(c),
        !is_alpha_byte(c),
        !is_digit_byte(c),
        paired_kinds(c) is None,
        single_kind(c) is None,
    ensures
        tokens(seq![c] + r) == seq![SpecToken { ty: TokenType::Illegal, lit: seq![c] }] + tokens(r),
{
    let s = seq![c] + r;
    assert(s[0] == c);
    assert(s.subrange(0, 1) =~= seq![c]);
    lemma_tokens_shift(seq![c], r, 0);
}

/// An operator or punctuation mark alone is exactly one token, of its kind
/// and with the mark as its lexeme.
pub proof fn law_operator_alone(op: Seq<u8>)
    requires
        operator_kind(op) is Some,
    ensures
        tokens(op) == seq![SpecToken { ty: operator_kind(op)->0, lit: op }],
{
    law_operator(op, Seq::empty());
    lemma_alone(op, SpecToken { ty: operator_kind(op)->0, lit: op });
}

/// A word that is no keyword is exactly one `Ident` token whose lexeme is
/// the word.
pub proof fn law_ident_alone(w: Seq<u8>)
    requires
        is_word(w),
        w != let_bytes(),
        w != fn_bytes(),
    ensures
        tokens(w) == seq![SpecToken { ty: TokenType::Ident, lit: w }],
{
    law_word(w, Seq::empty());
    lemma_alone(w, SpecToken { ty: TokenType::Ident, lit: w });
}

/// The words `let` and `fn` are tokens of their own kinds, never `Ident`.
pub proof fn law_keywords_alone()
    ensures
        tokens(let_bytes()) == seq![SpecToken { ty: TokenType::Let, lit: let_bytes() }],
        tokens(fn_bytes()) == seq![SpecToken { ty: TokenType::Fn, lit: fn_bytes() }],
{
    assert(let_bytes() != fn_bytes()) by {
        assert(let_bytes().len() == 3);
        assert(fn_bytes().len() == 2);
    }
    assert(is_word(let_bytes()));
    assert(is_word(fn_bytes()));
    law_word(let_bytes(), Seq::empty());
    lemma_alone(let_bytes(), SpecToken { ty: TokenType::Let, lit: let_bytes() });
    law_word(fn_bytes(), Seq::empty());
    lemma_alone(fn_bytes(), SpecToken { ty: TokenType::Fn, lit: fn_bytes() });
}

/// A keyword with more bytes of a word after it is one `Ident` token: a
/// keyword counts only as a whole word.
pub proof fn law_keyword_prefix(keyword: Seq<u8>, more: Seq<u8>)
    requires
        keyword == let_bytes() || keyword == fn_bytes(),
        more.len() > 0,
        forall|i: int| 0 <= i < more.len() ==> is_word_byte(#[trigger] more[i]),
    ensures
        tokens(keyword + more) == seq![SpecToken { ty: TokenType::Ident, lit: keyword + more }],
{
    let w = keyword + more;
    assert(let_bytes().len() == 3 && fn_bytes().len() == 2);
    assert(is_word(let_bytes()));
    assert(is_word(fn_bytes()));
    assert(w[0] == keyword[0]);
    assert forall|i: int| 0 <= i < w.len() implies is_word_byte(#[trigger] w[i]) by {
        if i < keyword.len() {
            assert(w[i] == keyword[i]);
        } else {
            assert(w[i] == more[i - keyword.len()]);
        }
    }
    assert(w != let_bytes()) by {
        if keyword == let_bytes() {
            assert(w.len() > 3);
        } else {
            assert(w[0] == fn_bytes()[0]);
            assert(let_bytes()[0] == LOWER_L);
        }
    }
    assert(w != fn_bytes()) by {
        if keyword == fn_bytes() {
            assert(w.len() > 2);
        } else {
            assert(w[0] == let_bytes()[0]);
            assert(fn_bytes()[0] == LOWER_F);
        }
    }
    law_ident_alone(w);
}

/// Digits alone are exactly one `IntLit` token whose lexeme is all the
/// digits, leading zeros too.
pub proof fn law_number_alone(d: Seq<u8>)
    requires
        is_number(d),
    ensures
        tokens(d) == seq![SpecToken { ty: TokenType::IntLit, lit: d }],
{
    law_number(d, Seq::empty());
    lemma_alone(d, SpecToken { ty: TokenType::IntLit, lit: d });
}

/// Where a text followed by nothing gives the token `t` followed by the
/// tokens of nothing, the text gives `t` alone.
proof fn lemma_alone(s: Seq<u8>, t: SpecToken)
    requires
        tokens(s + Seq::<u8>::empty()) == seq![t] + tokens(Seq::<u8>::empty()),
    ensures
        tokens(s) == seq![t],
{
    assert(s + Seq::<u8>::empty() =~= s);
    assert(tokens(Seq::<u8>::empty()) =~= Seq::<SpecToken>::empty());
    assert(seq![t] + Seq::<SpecToken>::empty() =~= seq![t]);
}

/// No lexeme holds a blank: every token of a buffer has a lexeme that is
/// not empty and free of blanks.
pub proof fn law_lexemes_hold_no_blank(s: Seq<u8>)
    ensures
        forall|i: int, k: int|
            0 <= i < tokens(s).len() && 0 <= k < tokens(s)[i].lit.len() ==> !is_space_byte(
                #[trigger] tokens(s)[i].lit[k],
            ),
        forall|i: int| 0 <= i < tokens(s).len() ==> (#[trigger] tokens(s)[i]).lit.len() > 0,
{
    lemma_tokens_well_formed(s, 0);
    assert forall|i: int, k: int|
        0 <= i < tokens(s).len() && 0 <= k < tokens(s)[i].lit.len() implies !is_space_byte(
        #[trigger] tokens(s)[i].lit[k],
    ) by {
        let t = tokens(s)[i];
        assert(t.well_formed());
        lemma_well_formed_no_blank(t);
    }
    assert forall|i: int| 0 <= i < tokens(s).len() implies (#[trigger] tokens(s)[i]).lit.len()
        > 0 by {
        assert(tokens(s)[i].well_formed());
    }
}

/// The lexeme of a well-formed token is free of blanks.
pub proof fn lemma_well_formed_no_blank(t: SpecToken)
    requires
        t.well_formed(),
    ensures
        forall|k: int| 0 <= k < t.lit.len() ==> !is_space_byte(#[trigger] t.lit[k]),
{
    let lit = t.lit;
    lemma_run_end(lit, 0, ByteClass::Word);
    lemma_run_end(lit, 0, ByteClass::Digit);
    assert forall|k: int| 0 <= k < lit.len() implies !is_space_byte(#[trigger] lit[k]) by {
        if is_alpha_byte(lit[0]) {
            assert(ByteClass::Word.has(lit[k]));
        } else if is_digit_byte(lit[0]) {
            assert(ByteClass::Digit.has(lit[k]));
        } else if k == 1 {
            assert(eq_follows(lit, 0));
        }
    }
}

/// The bytes of `s` from `p` on that are no blanks, in order.
pub open spec fn solid_from(s: Seq<u8>, p: int) -> Seq<u8>
    decreases s.len() - p,
{
    if 0 <= p < s.len() {
        if is_space_byte(s[p]) {
            solid_from(s, p + 1)
        } else {
            seq![s[p]] + solid_from(s, p + 1)
        }
    } else {
        Seq::empty()
    }
}

/// The lexemes of `ts`, one after another.
pub open spec fn lexemes(ts: Seq<SpecToken>) -> Seq<u8>
    decreases ts.len(),
{
    if ts.len() == 0 {
        Seq::empty()
    } else {
        ts[0].lit + lexemes(ts.drop_first())
    }
}

/// Blanks give no bytes that are no blanks.
proof fn lemma_solid_through_blanks(s: Seq<u8>, from: int, to: int)
    requires
        0 <= from <= to <= s.len(),
        forall|i: int| from <= i < to ==> is_space_byte(#[trigger] s[i]),
    ensures
        solid_from(s, from) == solid_from(s, to),
    decreases to - from,
{
    if from < to {
        lemma_solid_through_blanks(s, from + 1, to);
    }
}

/// A stretch without blanks gives all its bytes.
proof fn lemma_solid_through_lexeme(s: Seq<u8>, from: int, to: int)
    requires
        0 <= from <= to <= s.len(),
        forall|i: int| from <= i < to ==> !is_space_byte(#[trigger] s[i]),
    ensures
        solid_from(s, from) == s.subrange(from, to) + solid_from(s, to),
    decreases to - from,
{
    if from < to {
        lemma_solid_through_lexeme(s, from + 1, to);
        assert(seq![s[from]] + (s.subrange(from + 1, to) + solid_from(s, to)) =~= s.subrange(
            from,
            to,
        ) + solid_from(s, to));
    } else {
        assert(s.subrange(from, to) + solid_from(s, to) =~= solid_from(s, to));
    }
}

/// The lexemes of the tokens from a place on are the bytes from that place
/// on that are no blanks.
proof fn lemma_lexemes_from(s: Seq<u8>, p: int)
    requires
        0 <= p <= s.len(),
    ensures
        lexemes(tokens_from(s, p)) == solid_from(s, p),
    decreases s.len() - p,
{
    let q = run_end(s, p, ByteClass::Space);
    lemma_run_end(s, p, ByteClass::Space);
    lemma_solid_through_blanks(s, p, q);
    match scan(s, p) {
        Some((t, end)) => {
            lemma_lexeme_end(s, q);
            lemma_token_at_well_formed(s, q);
            lemma_well_formed_no_blank(t);
            assert forall|i: int| q <= i < end implies !is_space_byte(#[trigger] s[i]) by {
                assert(t.lit[i - q] == s[i]);
            }
            lemma_solid_through_lexeme(s, q, end);
            lemma_lexemes_from(s, end);
            let ts = tokens_from(s, p);
            assert(ts[0] == t);
            assert(ts.drop_first() =~= tokens_from(s, end));
        },
        None => {},
    }
}

/// Scanning loses no byte and adds none: the lexemes of the tokens of a
/// buffer, one after another, are the bytes of the buffer without its
/// blanks.
pub proof fn law_no_byte_lost(s: Seq<u8>)
    ensures
        lexemes(tokens(s)) == solid_from(s, 0),
{
    lemma_lexemes_from(s, 0);
}

/// Blanks at the start of a buffer change nothing.
pub proof fn law_blanks_before(w: Seq<u8>, b: Seq<u8>)
    requires
        all_blanks(w),
    ensures
        tokens(w + b) == tokens(b),
{
    let s = w + b;
    assert forall|i: int| 0 <= i < w.len() implies ByteClass::Space.has(#[trigger] s[i]) by {
        assert(s[i] == w[i]);
    }
    lemma_run_end_through(s, 0, w.len() as int, ByteClass::Space);
    assert(scan(s, 0) == scan(s, w.len() as int));
    lemma_tokens_shift(w, b, 0);
}

/// Blanks at the end of a buffer change nothing.
pub proof fn law_blanks_after(a: Seq<u8>, w: Seq<u8>)
    requires
        all_blanks(w),
    ensures
        tokens(a + w) == tokens(a),
{
    if w.len() > 0 {
        assert(is_space_byte(w[0]));
    }
    lemma_tokens_prefix(a, w, 0);
    lemma_tokens_shift(a, w, 0);
    law_blanks_before(w, Seq::empty());
    assert(w + Seq::<u8>::empty() =~= w);
    assert(tokens(Seq::<u8>::empty()) =~= Seq::<SpecToken>::empty());
    assert(tokens(a) + Seq::<SpecToken>::empty() =~= tokens(a));
}

/// Blanks between two pieces of text part them: the tokens of the whole are
/// the tokens of the first piece and then the tokens of the second, and no
/// token comes of the blanks.
pub proof fn law_blanks_between(a: Seq<u8>, w: Seq<u8>, b: Seq<u8>)
    requires
        w.len() > 0,
        all_blanks(w),
    ensures
        tokens(a + w + b) == tokens(a) + tokens(b),
{
    assert(is_space_byte(w[0]));
    assert((w + b)[0] == w[0]);
    assert(a + w + b =~= a + (w + b));
    lemma_tokens_prefix(a, w + b, 0);
    lemma_tokens_shift(a, w + b, 0);
    law_blanks_before(w, b);
}

/// Blanks put where one token ends and the next begins change nothing:
/// where the tokens of two pieces of text joined are the tokens of the first
/// and then the tokens of the second, they are so with blanks between the
/// pieces too.
pub proof fn law_blanks_at_boundary(a: Seq<u8>, w: Seq<u8>, b: Seq<u8>)
    requires
        all_blanks(w),
        tokens(a + b) == tokens(a) + tokens(b),
    ensures
        tokens(a + w + b) == tokens(a + b),
{
    if w.len() > 0 {
        law_blanks_between(a, w, b);
    } else {
        assert(a + w + b =~= a + b);
    }
}

/// How many blanks stand between two pieces of text, and which, is of no
/// account.
pub proof fn law_blanks_amount(a: Seq<u8>, w1: Seq<u8>, w2: Seq<u8>, b: Seq<u8>)
    requires
        w1.len() > 0,
        w2.len() > 0,
        all_blanks(w1),
        all_blanks(w2),
    ensures
        tokens(a + w1 + b) == tokens(a + w2 + b),
{
    law_blanks_between(a, w1, b);
    law_blanks_between(a, w2, b);
}

} // verus!
