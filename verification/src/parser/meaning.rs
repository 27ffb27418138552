//! What the tokens of a program are: parsing succeeds on exactly the tokens
//! that write a program, up to the way in which numbers are spelt.

use vstd::prelude::*;

use super::error::SpecError;
use super::grammar::{
    block, block_items, expect, expect_one_of, expr, fn_def, ident, lemma_expect,
    lemma_params_rest, lemma_stmt_no_more, lemma_stmt_rest, let_stmt, param_pairs, params,
    program, statements, stmt,
};
use super::laws::law_read_written;
use super::parsed::{
    law_parsed_in_source_form, lemma_expect_form, lemma_expr_form, lemma_int_lit_is_number,
    lemma_rest_well_formed,
};
use super::render::{
    decimal_digits, expr_token, lemma_decimal_digits, lemma_write_stmts_well_formed, mark,
    mark_text, name_token, then, write_let, write_pairs, write_params, write_program,
    write_stmt, write_stmts,
};
use crate::ast::expr::{decimal_value, int_of_literal, law_digits_value};
use crate::ast::{all_in_source_form, SpecProgram, SpecStatement};
use crate::lexer::pred::{is_alpha_byte, is_digit_byte, ByteClass};
use crate::lexer::scanning::{all_well_formed, lemma_run_end};
use crate::lexer::{SpecToken, TokenType};

verus! {

/// The token `t` with its number, if it is one, spelt without leading
/// zeros. Any other token is left as it is.
pub open spec fn plain(t: SpecToken) -> SpecToken {
    if t.ty == TokenType::IntLit {
        SpecToken { ty: TokenType::IntLit, lit: decimal_digits(decimal_value(t.lit) as nat) }
    } else {
        t
    }
}

/// The tokens `ts` with their numbers spelt without leading zeros.
pub open spec fn all_plain(ts: Seq<SpecToken>) -> Seq<SpecToken> {
    Seq::new(ts.len(), |i: int| plain(ts[i]))
}

/// Whether `kind` is a kind whose tokens all have the same text.
pub open spec fn is_mark(kind: TokenType) -> bool {
    kind != TokenType::Ident && kind != TokenType::IntLit && kind != TokenType::Illegal
}

/// A well-formed token of a kind whose tokens all have the same text has
/// that text.
pub proof fn lemma_well_formed_mark(t: SpecToken)
    requires
        t.well_formed(),
        is_mark(t.ty),
    ensures
        t == mark(t.ty),
{
    let lit = t.lit;
    if is_alpha_byte(lit[0]) {
        lemma_run_end(lit, 0, ByteClass::Word);
        assert(lit.subrange(0, lit.len() as int) =~= lit);
    } else if is_digit_byte(lit[0]) {
    } else {
        assert(lit.len() == 1 || lit.len() == 2);
        assert(lit =~= mark_text(t.ty));
    }
}

/// Spelling numbers plainly goes token by token.
pub proof fn lemma_plain_then(first: SpecToken, rest: Seq<SpecToken>)
    ensures
        all_plain(then(first, rest)) == then(plain(first), all_plain(rest)),
{
    assert(all_plain(then(first, rest)) =~= then(plain(first), all_plain(rest)));
}

/// Where a token of a kind was taken, the tokens were that token and then
/// the tokens that are left.
pub proof fn lemma_expect_taken(ts: Seq<SpecToken>, kind: TokenType)
    requires
        all_well_formed(ts),
        expect(ts, kind).0 is Ok,
    ensures
        ts == then(expect(ts, kind).0->Ok_0, expect(ts, kind).1),
        expect(ts, kind).0->Ok_0.ty == kind,
        expect(ts, kind).0->Ok_0.well_formed(),
        all_well_formed(expect(ts, kind).1),
        is_mark(kind) ==> expect(ts, kind).0->Ok_0 == mark(kind),
{
    lemma_expect(ts, kind);
    lemma_expect_form(ts, kind);
    assert(ts =~= then(ts[0], ts.drop_first()));
    if is_mark(kind) {
        lemma_well_formed_mark(ts[0]);
    }
}

/// Where a mark was taken, the tokens spelt plainly are the mark and then
/// the tokens that are left, spelt plainly.
pub proof fn lemma_mark_taken(ts: Seq<SpecToken>, kind: TokenType)
    requires
        all_well_formed(ts),
        is_mark(kind),
        expect(ts, kind).0 is Ok,
    ensures
        all_plain(ts) == then(mark(kind), all_plain(expect(ts, kind).1)),
        all_well_formed(expect(ts, kind).1),
{
    lemma_expect_taken(ts, kind);
    lemma_plain_then(mark(kind), expect(ts, kind).1);
}

/// Where a name was read, the tokens spelt plainly are the name's token and
/// then the tokens that are left, spelt plainly.
pub proof fn lemma_ident_taken(ts: Seq<SpecToken>)
    requires
        all_well_formed(ts),
        ident(ts).0 is Ok,
    ensures
        all_plain(ts) == then(name_token(ident(ts).0->Ok_0), all_plain(ident(ts).1)),
        all_well_formed(ident(ts).1),
{
    lemma_expect_taken(ts, TokenType::Ident);
    lemma_plain_then(name_token(ident(ts).0->Ok_0), ident(ts).1);
}

/// Where an expression was read, the tokens spelt plainly are the
/// expression's token and then the tokens that are left, spelt plainly.
pub proof fn lemma_expr_taken(ts: Seq<SpecToken>)
    requires
        all_well_formed(ts),
        expr(ts).0 is Ok,
    ensures
        all_plain(ts) == then(expr_token(expr(ts).0->Ok_0), all_plain(expr(ts).1)),
        all_well_formed(expr(ts).1),
{
    lemma_expr_form(ts);
    if ts[0].ty == TokenType::Ident {
        lemma_ident_taken(ts);
    } else {
        lemma_expect_taken(ts, TokenType::IntLit);
        let tok = ts[0];
        lemma_int_lit_is_number(tok);
        assert(is_digit_byte(tok.lit[0]));
        lemma_plain_then(tok, expr(ts).1);
    }
}

/// Where a `let` statement was read, the tokens spelt plainly are the
/// statement's tokens and then the tokens that are left, spelt plainly.
pub proof fn lemma_let_taken(ts: Seq<SpecToken>)
    requires
        all_well_formed(ts),
        let_stmt(ts).0 is Ok,
    ensures
        let_stmt(ts).0->Ok_0 matches SpecStatement::Let(l) && all_plain(ts) == write_let(
            l,
            all_plain(let_stmt(ts).1),
        ),
        all_well_formed(let_stmt(ts).1),
{
    lemma_mark_taken(ts, TokenType::Let);
    let r1 = expect(ts, TokenType::Let).1;
    lemma_ident_taken(r1);
    let r2 = ident(r1).1;
    lemma_mark_taken(r2, TokenType::Assign);
    let r3 = expect(r2, TokenType::Assign).1;
    lemma_expr_taken(r3);
    let r4 = expr(r3).1;
    lemma_mark_taken(r4, TokenType::Semicolon);
}

/// Where parameters were read, there is at least one, and the tokens spelt
/// plainly are the parameters' tokens and then the tokens that are left,
/// spelt plainly.
pub proof fn lemma_param_pairs_taken(ts: Seq<SpecToken>)
    requires
        all_well_formed(ts),
        param_pairs(ts).0 is Ok,
    ensures
        param_pairs(ts).0->Ok_0.len() > 0,
        all_plain(ts) == write_pairs(param_pairs(ts).0->Ok_0, all_plain(param_pairs(ts).1)),
        all_well_formed(param_pairs(ts).1),
    decreases ts.len(),
{
    let kinds = seq![TokenType::Comma, TokenType::CloseParen];
    lemma_ident_taken(ts);
    let r1 = ident(ts).1;
    lemma_mark_taken(r1, TokenType::Colon);
    let r2 = expect(r1, TokenType::Colon).1;
    lemma_ident_taken(r2);
    let r3 = ident(r2).1;
    let r4 = expect_one_of(r3, kinds).1;
    let tok = r3[0];
    let pair = (ident(ts).0->Ok_0, ident(r2).0->Ok_0);
    lemma_rest_well_formed(r3);
    assert(r3 =~= then(tok, r4));
    lemma_plain_then(tok, r4);
    lemma_well_formed_mark(tok);
    if tok.ty == TokenType::CloseParen {
        let ps = seq![pair];
        assert(ps.len() == 1 && ps[0] == pair);
    } else {
        assert(tok.ty == TokenType::Comma) by {
            let k = choose|k: int| 0 <= k < kinds.len() && kinds[k] == tok.ty;
        }
        lemma_param_pairs_taken(r4);
        let more = param_pairs(r4).0->Ok_0;
        let ps = seq![pair] + more;
        assert(ps[0] == pair);
        assert(ps.drop_first() =~= more);
    }
}

/// Where a parameter list was read, the tokens spelt plainly are the list's
/// tokens and then the tokens that are left, spelt plainly.
pub proof fn lemma_params_taken(ts: Seq<SpecToken>)
    requires
        all_well_formed(ts),
        params(ts).0 is Ok,
    ensures
        all_plain(ts) == write_params(params(ts).0->Ok_0, all_plain(params(ts).1)),
        all_well_formed(params(ts).1),
{
    lemma_mark_taken(ts, TokenType::OpenParen);
    let r1 = expect(ts, TokenType::OpenParen).1;
    if r1.len() > 0 && r1[0].ty == TokenType::CloseParen {
        lemma_expect(r1, TokenType::CloseParen);
        lemma_mark_taken(r1, TokenType::CloseParen);
    } else {
        lemma_param_pairs_taken(r1);
    }
}

/// Where a statement was read, the tokens spelt plainly are the
/// statement's tokens and then the tokens that are left, spelt plainly.
pub proof fn lemma_stmt_taken(ts: Seq<SpecToken>)
    requires
        all_well_formed(ts),
        stmt(ts).0 is Ok,
    ensures
        all_plain(ts) == write_stmt(stmt(ts).0->Ok_0, all_plain(stmt(ts).1)),
        all_well_formed(stmt(ts).1),
    decreases ts.len(), 2int,
{
    if ts[0].ty == TokenType::Let {
        lemma_let_taken(ts);
    } else {
        lemma_fn_def_taken(ts);
    }
}

/// Where a function definition was read, the tokens spelt plainly are the
/// definition's tokens and then the tokens that are left, spelt plainly.
pub proof fn lemma_fn_def_taken(ts: Seq<SpecToken>)
    requires
        all_well_formed(ts),
        fn_def(ts).0 is Ok,
    ensures
        all_plain(ts) == write_stmt(fn_def(ts).0->Ok_0, all_plain(fn_def(ts).1)),
        all_well_formed(fn_def(ts).1),
    decreases ts.len(), 1int,
{
    lemma_mark_taken(ts, TokenType::Fn);
    let r1 = expect(ts, TokenType::Fn).1;
    lemma_ident_taken(r1);
    let r2 = ident(r1).1;
    lemma_params_taken(r2);
    lemma_params_rest(r2);
    let r3 = params(r2).1;
    lemma_mark_taken(r3, TokenType::Colon);
    let r4 = expect(r3, TokenType::Colon).1;
    lemma_ident_taken(r4);
    let r5 = ident(r4).1;
    lemma_block_taken(r5);
}

/// Where a block was read, the tokens spelt plainly are the opening brace,
/// the tokens of the block's statements, the closing brace, and then the
/// tokens that are left, spelt plainly.
pub proof fn lemma_block_taken(ts: Seq<SpecToken>)
    requires
        all_well_formed(ts),
        block(ts).0 is Ok,
    ensures
        all_plain(ts) == then(
            mark(TokenType::OpenBrace),
            write_stmts(
                block(ts).0->Ok_0,
                then(mark(TokenType::CloseBrace), all_plain(block(ts).1)),
            ),
        ),
        all_well_formed(block(ts).1),
    decreases ts.len(), 4int,
{
    lemma_mark_taken(ts, TokenType::OpenBrace);
    lemma_block_items_taken(expect(ts, TokenType::OpenBrace).1);
}

/// Where the statements of a block were read up to the closing brace, the
/// tokens spelt plainly are the statements' tokens, the closing brace, and
/// then the tokens that are left, spelt plainly.
pub proof fn lemma_block_items_taken(ts: Seq<SpecToken>)
    requires
        all_well_formed(ts),
        block_items(ts).0 is Ok,
    ensures
        all_plain(ts) == write_stmts(
            block_items(ts).0->Ok_0,
            then(mark(TokenType::CloseBrace), all_plain(block_items(ts).1)),
        ),
        all_well_formed(block_items(ts).1),
    decreases ts.len(), 3int,
{
    if ts[0].ty == TokenType::CloseBrace {
        lemma_expect(ts, TokenType::CloseBrace);
        lemma_mark_taken(ts, TokenType::CloseBrace);
    } else {
        lemma_stmt_rest(ts);
        lemma_stmt_taken(ts);
        let first = stmt(ts).0->Ok_0;
        let r1 = stmt(ts).1;
        lemma_block_items_taken(r1);
        let more = block_items(r1).0->Ok_0;
        let all = seq![first] + more;
        assert(all[0] == first);
        assert(all.drop_first() =~= more);
    }
}

/// Where statements were read up to the end of the tokens, the tokens
/// spelt plainly are the statements' tokens, and none is left.
pub proof fn lemma_statements_taken(ts: Seq<SpecToken>)
    requires
        all_well_formed(ts),
        statements(ts).0 is Ok,
    ensures
        statements(ts).1.len() == 0,
        all_plain(ts) == write_stmts(statements(ts).0->Ok_0, Seq::empty()),
    decreases ts.len(),
{
    lemma_stmt_no_more(ts);
    if ts.len() == 0 {
        assert(all_plain(ts) =~= Seq::<SpecToken>::empty());
    } else {
        lemma_stmt_rest(ts);
        lemma_stmt_taken(ts);
        let first = stmt(ts).0->Ok_0;
        let r1 = stmt(ts).1;
        lemma_statements_taken(r1);
        let more = statements(r1).0->Ok_0;
        let all = seq![first] + more;
        assert(all[0] == first);
        assert(all.drop_first() =~= more);
        assert(all_plain(statements(r1).1) =~= Seq::<SpecToken>::empty());
    }
}

/// Whether `ts` and `us` are the same tokens but for the way in which their
/// numbers are spelt.
pub open spec fn same_plain(ts: Seq<SpecToken>, us: Seq<SpecToken>) -> bool {
    all_plain(ts) == all_plain(us)
}

/// Digits that write a number without leading zeros write one number only.
pub proof fn lemma_decimal_digits_one_to_one(m: nat, n: nat)
    requires
        decimal_digits(m) == decimal_digits(n),
    ensures
        m == n,
{
    lemma_decimal_digits(m);
    lemma_decimal_digits(n);
}

/// The first tokens of tokens that are the same but for the spelling of
/// numbers are of one kind; they are one token, or numbers of one value. The
/// tokens after them are again the same but for the spelling of numbers.
pub proof fn lemma_same_plain_first(ts: Seq<SpecToken>, us: Seq<SpecToken>)
    requires
        all_well_formed(ts),
        all_well_formed(us),
        same_plain(ts, us),
    ensures
        ts.len() == us.len(),
        ts.len() > 0 ==> {
            &&& ts[0].ty == us[0].ty
            &&& ts[0].ty != TokenType::IntLit ==> ts[0] == us[0]
            &&& ts[0].ty == TokenType::IntLit ==> int_of_literal(ts[0].lit) == int_of_literal(
                us[0].lit,
            )
            &&& same_plain(ts.drop_first(), us.drop_first())
            &&& all_well_formed(ts.drop_first())
            &&& all_well_formed(us.drop_first())
        },
{
    assert(all_plain(ts).len() == ts.len());
    assert(all_plain(us).len() == us.len());
    if ts.len() > 0 {
        assert(all_plain(ts)[0] == plain(ts[0]));
        assert(all_plain(us)[0] == plain(us[0]));
        lemma_rest_well_formed(ts);
        lemma_rest_well_formed(us);
        if ts[0].ty == TokenType::IntLit {
            lemma_int_lit_is_number(ts[0]);
            lemma_int_lit_is_number(us[0]);
            law_digits_value(ts[0].lit);
            law_digits_value(us[0].lit);
            lemma_decimal_digits_one_to_one(
                decimal_value(ts[0].lit) as nat,
                decimal_value(us[0].lit) as nat,
            );
        }
        assert(all_plain(ts.drop_first()) =~= all_plain(us.drop_first())) by {
            assert forall|i: int| 0 <= i < ts.len() - 1 implies plain(ts.drop_first()[i]) == plain(
                us.drop_first()[i],
            ) by {
                assert(all_plain(ts)[i + 1] == plain(ts[i + 1]));
                assert(all_plain(us)[i + 1] == plain(us[i + 1]));
            }
        }
    }
}

/// Expecting a kind that is no number takes the same token from tokens that
/// are the same but for the spelling of numbers.
pub proof fn lemma_expect_same(ts: Seq<SpecToken>, us: Seq<SpecToken>, kind: TokenType)
    requires
        all_well_formed(ts),
        all_well_formed(us),
        same_plain(ts, us),
        kind != TokenType::IntLit,
        expect(ts, kind).0 is Ok,
    ensures
        expect(us, kind).0 == expect(ts, kind).0,
        same_plain(expect(ts, kind).1, expect(us, kind).1),
        all_well_formed(expect(ts, kind).1),
        all_well_formed(expect(us, kind).1),
{
    lemma_same_plain_first(ts, us);
    lemma_expect(ts, kind);
    lemma_expect(us, kind);
}

/// Reading a name gives the same from tokens that are the same but for the
/// spelling of numbers.
pub proof fn lemma_ident_same(ts: Seq<SpecToken>, us: Seq<SpecToken>)
    requires
        all_well_formed(ts),
        all_well_formed(us),
        same_plain(ts, us),
        ident(ts).0 is Ok,
    ensures
        ident(us).0 == ident(ts).0,
        same_plain(ident(ts).1, ident(us).1),
        all_well_formed(ident(ts).1),
        all_well_formed(ident(us).1),
{
    lemma_expect_same(ts, us, TokenType::Ident);
}

/// Reading an expression gives the same from tokens that are the same but
/// for the spelling of numbers.
pub proof fn lemma_expr_same(ts: Seq<SpecToken>, us: Seq<SpecToken>)
    requires
        all_well_formed(ts),
        all_well_formed(us),
        same_plain(ts, us),
        expr(ts).0 is Ok,
    ensures
        expr(us).0 == expr(ts).0,
        same_plain(expr(ts).1, expr(us).1),
        all_well_formed(expr(ts).1),
        all_well_formed(expr(us).1),
{
    lemma_same_plain_first(ts, us);
    if ts[0].ty == TokenType::Ident {
        lemma_ident_same(ts, us);
    } else {
        lemma_expect(ts, TokenType::IntLit);
        lemma_expect(us, TokenType::IntLit);
    }
}

/// Reading a `let` statement gives the same from tokens that are the same
/// but for the spelling of numbers.
pub proof fn lemma_let_same(ts: Seq<SpecToken>, us: Seq<SpecToken>)
    requires
        all_well_formed(ts),
        all_well_formed(us),
        same_plain(ts, us),
        let_stmt(ts).0 is Ok,
    ensures
        let_stmt(us).0 == let_stmt(ts).0,
        same_plain(let_stmt(ts).1, let_stmt(us).1),
        all_well_formed(let_stmt(ts).1),
        all_well_formed(let_stmt(us).1),
{
    lemma_expect_same(ts, us, TokenType::Let);
    let (t1, u1) = (expect(ts, TokenType::Let).1, expect(us, TokenType::Let).1);
    lemma_ident_same(t1, u1);
    let (t2, u2) = (ident(t1).1, ident(u1).1);
    lemma_expect_same(t2, u2, TokenType::Assign);
    let (t3, u3) = (expect(t2, TokenType::Assign).1, expect(u2, TokenType::Assign).1);
    lemma_expr_same(t3, u3);
    let (t4, u4) = (expr(t3).1, expr(u3).1);
    lemma_expect_same(t4, u4, TokenType::Semicolon);
}

/// Reading parameters gives the same from tokens that are the same but for
/// the spelling of numbers.
pub proof fn lemma_param_pairs_same(ts: Seq<SpecToken>, us: Seq<SpecToken>)
    requires
        all_well_formed(ts),
        all_well_formed(us),
        same_plain(ts, us),
        param_pairs(ts).0 is Ok,
    ensures
        param_pairs(us).0 == param_pairs(ts).0,
        same_plain(param_pairs(ts).1, param_pairs(us).1),
        all_well_formed(param_pairs(ts).1),
        all_well_formed(param_pairs(us).1),
    decreases ts.len(),
{
    let kinds = seq![TokenType::Comma, TokenType::CloseParen];
    lemma_ident_same(ts, us);
    let (t1, u1) = (ident(ts).1, ident(us).1);
    lemma_expect_same(t1, u1, TokenType::Colon);
    let (t2, u2) = (expect(t1, TokenType::Colon).1, expect(u1, TokenType::Colon).1);
    lemma_ident_same(t2, u2);
    let (t3, u3) = (ident(t2).1, ident(u2).1);
    lemma_same_plain_first(t3, u3);
    let (t4, u4) = (expect_one_of(t3, kinds).1, expect_one_of(u3, kinds).1);
    assert(t3[0].ty != TokenType::IntLit) by {
        let k = choose|k: int| 0 <= k < kinds.len() && kinds[k] == t3[0].ty;
    }
    if t3[0].ty != TokenType::CloseParen {
        lemma_param_pairs_same(t4, u4);
    }
}

/// Reading a parameter list gives the same from tokens that are the same
/// but for the spelling of numbers.
pub proof fn lemma_params_same(ts: Seq<SpecToken>, us: Seq<SpecToken>)
    requires
        all_well_formed(ts),
        all_well_formed(us),
        same_plain(ts, us),
        params(ts).0 is Ok,
    ensures
        params(us).0 == params(ts).0,
        same_plain(params(ts).1, params(us).1),
        all_well_formed(params(ts).1),
        all_well_formed(params(us).1),
{
    lemma_expect_same(ts, us, TokenType::OpenParen);
    let (t1, u1) = (expect(ts, TokenType::OpenParen).1, expect(us, TokenType::OpenParen).1);
    lemma_same_plain_first(t1, u1);
    if t1.len() > 0 && t1[0].ty == TokenType::CloseParen {
    } else {
        lemma_param_pairs_same(t1, u1);
    }
}

/// Reading a statement gives the same from tokens that are the same but for
/// the spelling of numbers.
pub proof fn lemma_stmt_same(ts: Seq<SpecToken>, us: Seq<SpecToken>)
    requires
        all_well_formed(ts),
        all_well_formed(us),
        same_plain(ts, us),
        stmt(ts).0 is Ok,
    ensures
        stmt(us).0 == stmt(ts).0,
        same_plain(stmt(ts).1, stmt(us).1),
        all_well_formed(stmt(ts).1),
        all_well_formed(stmt(us).1),
    decreases ts.len(), 2int,
{
    lemma_same_plain_first(ts, us);
    if ts[0].ty == TokenType::Let {
        lemma_let_same(ts, us);
    } else {
        lemma_fn_def_same(ts, us);
    }
}

/// Reading a function definition gives the same from tokens that are the
/// same but for the spelling of numbers.
pub proof fn lemma_fn_def_same(ts: Seq<SpecToken>, us: Seq<SpecToken>)
    requires
        all_well_formed(ts),
        all_well_formed(us),
        same_plain(ts, us),
        fn_def(ts).0 is Ok,
    ensures
        fn_def(us).0 == fn_def(ts).0,
        same_plain(fn_def(ts).1, fn_def(us).1),
        all_well_formed(fn_def(ts).1),
        all_well_formed(fn_def(us).1),
    decreases ts.len(), 1int,
{
    lemma_expect_same(ts, us, TokenType::Fn);
    let (t1, u1) = (expect(ts, TokenType::Fn).1, expect(us, TokenType::Fn).1);
    lemma_ident_same(t1, u1);
    let (t2, u2) = (ident(t1).1, ident(u1).1);
    lemma_params_same(t2, u2);
    lemma_params_rest(t2);
    let (t3, u3) = (params(t2).1, params(u2).1);
    lemma_expect_same(t3, u3, TokenType::Colon);
    let (t4, u4) = (expect(t3, TokenType::Colon).1, expect(u3, TokenType::Colon).1);
    lemma_ident_same(t4, u4);
    let (t5, u5) = (ident(t4).1, ident(u4).1);
    lemma_expect_same(t5, u5, TokenType::OpenBrace);
    let (t6, u6) = (expect(t5, TokenType::OpenBrace).1, expect(u5, TokenType::OpenBrace).1);
    lemma_block_items_same(t6, u6);
}

/// Reading the statements of a block gives the same from tokens that are
/// the same but for the spelling of numbers.
pub proof fn lemma_block_items_same(ts: Seq<SpecToken>, us: Seq<SpecToken>)
    requires
        all_well_formed(ts),
        all_well_formed(us),
        same_plain(ts, us),
        block_items(ts).0 is Ok,
    ensures
        block_items(us).0 == block_items(ts).0,
        same_plain(block_items(ts).1, block_items(us).1),
        all_well_formed(block_items(ts).1),
        all_well_formed(block_items(us).1),
    decreases ts.len(), 3int,
{
    lemma_same_plain_first(ts, us);
    if ts[0].ty != TokenType::CloseBrace {
        lemma_stmt_rest(ts);
        lemma_stmt_rest(us);
        lemma_stmt_same(ts, us);
        lemma_block_items_same(stmt(ts).1, stmt(us).1);
    }
}

/// Reading statements up to the end gives the same from tokens that are the
/// same but for the spelling of numbers.
pub proof fn lemma_statements_same(ts: Seq<SpecToken>, us: Seq<SpecToken>)
    requires
        all_well_formed(ts),
        all_well_formed(us),
        same_plain(ts, us),
        statements(ts).0 is Ok,
    ensures
        statements(us).0 == statements(ts).0,
    decreases ts.len(),
{
    lemma_same_plain_first(ts, us);
    lemma_stmt_no_more(ts);
    lemma_stmt_no_more(us);
    if ts.len() > 0 {
        lemma_stmt_rest(ts);
        lemma_stmt_rest(us);
        lemma_stmt_same(ts, us);
        lemma_statements_same(stmt(ts).1, stmt(us).1);
    }
}

/// The only tokens that parse to a program are the tokens that write it:
/// where parsing well-formed tokens gives a program, the tokens, with their
/// numbers spelt without leading zeros, are the tokens of that program, and
/// none is left.
pub proof fn law_parsed_tokens(ts: Seq<SpecToken>)
    requires
        all_well_formed(ts),
    ensures
        program(ts).0 matches Ok(p) ==> all_plain(ts) == write_program(p) && program(ts).1.len()
            == 0,
{
    if statements(ts).0 is Ok {
        lemma_statements_taken(ts);
    }
}

/// Success, stated over the tokens alone: parsing well-formed tokens gives
/// the program `p` exactly where `p` is in source form and the tokens, with
/// their numbers spelt without leading zeros, are the tokens that write `p`.
pub proof fn law_tokens_of_program(ts: Seq<SpecToken>, p: SpecProgram)
    requires
        all_well_formed(ts),
    ensures
        program(ts).0 == Ok::<SpecProgram, SpecError>(p) <==> all_in_source_form(p.0) && all_plain(
            ts,
        ) == write_program(p),
{
    if program(ts).0 == Ok::<SpecProgram, SpecError>(p) {
        law_parsed_in_source_form(ts);
        law_parsed_tokens(ts);
    }
    if all_in_source_form(p.0) && all_plain(ts) == write_program(p) {
        let us = write_program(p);
        lemma_write_stmts_well_formed(p.0, Seq::empty());
        law_read_written(p);
        law_parsed_tokens(us);
        lemma_statements_same(us, ts);
    }
}

} // verus!
