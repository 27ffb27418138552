//! What comes out of parsing: trees in source form.

use vstd::prelude::*;

use super::grammar::{
    block, block_items, expect, expect_one_of, expr, fn_def, ident, lemma_expect,
    lemma_params_rest, lemma_stmt_rest, let_stmt, param_pairs, params, program, statements, stmt,
};
use crate::ast::expr::lemma_decimal_value_nonnegative;
use crate::ast::{all_in_source_form, is_name, params_in_source_form, SpecStatement};
use crate::lexer::pred::{is_alpha_byte, is_digit_byte, is_number, is_word_byte, ByteClass};
use crate::lexer::scanning::{all_well_formed, lemma_run_end, run_end};
use crate::lexer::token::word_kind;
use crate::lexer::{SpecToken, TokenType};

verus! {

/// The lexeme of a well-formed `Ident` token is a name.
pub proof fn lemma_ident_is_name(tok: SpecToken)
    requires
        tok.well_formed(),
        tok.ty == TokenType::Ident,
    ensures
        is_name(tok.lit),
{
    let lit = tok.lit;
    assert(is_alpha_byte(lit[0]));
    lemma_run_end(lit, 0, ByteClass::Word);
    assert(lit.subrange(0, lit.len() as int) =~= lit);
    assert forall|i: int| 0 <= i < lit.len() implies is_word_byte(#[trigger] lit[i]) by {
        assert(ByteClass::Word.has(lit[i]));
    }
}

/// The lexeme of a well-formed `IntLit` token is a number.
pub proof fn lemma_int_lit_is_number(tok: SpecToken)
    requires
        tok.well_formed(),
        tok.ty == TokenType::IntLit,
    ensures
        is_number(tok.lit),
{
    let lit = tok.lit;
    assert(is_digit_byte(lit[0])) by {
        if is_alpha_byte(lit[0]) {
            assert(word_kind(lit.subrange(0, run_end(lit, 0, ByteClass::Word)))
                != TokenType::IntLit);
        }
    }
    lemma_run_end(lit, 0, ByteClass::Digit);
    assert forall|i: int| 0 <= i < lit.len() implies is_digit_byte(#[trigger] lit[i]) by {
        assert(ByteClass::Digit.has(lit[i]));
    }
}

/// Well-formed tokens stay well formed when the first is taken away.
pub proof fn lemma_rest_well_formed(ts: Seq<SpecToken>)
    requires
        all_well_formed(ts),
        ts.len() > 0,
    ensures
        ts[0].well_formed(),
        all_well_formed(ts.drop_first()),
{
    let rest = ts.drop_first();
    assert forall|i: int| 0 <= i < rest.len() implies (#[trigger] rest[i]).well_formed() by {
        assert(rest[i] == ts[i + 1]);
    }
}

/// Expecting a kind leaves well-formed tokens well formed, and the token
/// that it takes is well formed and of that kind.
pub proof fn lemma_expect_form(ts: Seq<SpecToken>, kind: TokenType)
    requires
        all_well_formed(ts),
    ensures
        all_well_formed(expect(ts, kind).1),
        expect(ts, kind).0 matches Ok(tok) ==> tok.well_formed() && tok.ty == kind,
{
    lemma_expect(ts, kind);
    if ts.len() > 0 {
        lemma_rest_well_formed(ts);
    }
}

/// A name read from well-formed tokens is a name.
pub proof fn lemma_ident_form(ts: Seq<SpecToken>)
    requires
        all_well_formed(ts),
    ensures
        all_well_formed(ident(ts).1),
        ident(ts).0 matches Ok(name) ==> is_name(name),
{
    lemma_expect_form(ts, TokenType::Ident);
    if let Ok(tok) = expect(ts, TokenType::Ident).0 {
        lemma_ident_is_name(tok);
    }
}

/// An expression read from well-formed tokens is in source form.
pub proof fn lemma_expr_form(ts: Seq<SpecToken>)
    requires
        all_well_formed(ts),
    ensures
        all_well_formed(expr(ts).1),
        expr(ts).0 matches Ok(e) ==> e.in_source_form(),
{
    lemma_ident_form(ts);
    lemma_expect_form(ts, TokenType::IntLit);
    if let Ok(tok) = expect(ts, TokenType::IntLit).0 {
        lemma_int_lit_is_number(tok);
        assert(is_digit_byte(tok.lit[0]));
        lemma_decimal_value_nonnegative(tok.lit);
    }
}

/// A `let` statement read from well-formed tokens is in source form.
pub proof fn lemma_let_form(ts: Seq<SpecToken>)
    requires
        all_well_formed(ts),
    ensures
        all_well_formed(let_stmt(ts).1),
        let_stmt(ts).0 matches Ok(s) ==> s.in_source_form(),
{
    lemma_expect_form(ts, TokenType::Let);
    let r1 = expect(ts, TokenType::Let).1;
    lemma_ident_form(r1);
    let r2 = ident(r1).1;
    lemma_expect_form(r2, TokenType::Assign);
    let r3 = expect(r2, TokenType::Assign).1;
    lemma_expr_form(r3);
    let r4 = expr(r3).1;
    lemma_expect_form(r4, TokenType::Semicolon);
}

/// Parameters read from well-formed tokens are names with names of types.
pub proof fn lemma_param_pairs_form(ts: Seq<SpecToken>)
    requires
        all_well_formed(ts),
    ensures
        all_well_formed(param_pairs(ts).1),
        param_pairs(ts).0 matches Ok(ps) ==> params_in_source_form(ps),
    decreases ts.len(),
{
    let kinds = seq![TokenType::Comma, TokenType::CloseParen];
    lemma_ident_form(ts);
    let r1 = ident(ts).1;
    lemma_expect_form(r1, TokenType::Colon);
    let r2 = expect(r1, TokenType::Colon).1;
    lemma_ident_form(r2);
    let r3 = ident(r2).1;
    if r3.len() > 0 {
        lemma_rest_well_formed(r3);
    }
    if ident(ts).0 is Ok && expect(r1, TokenType::Colon).0 is Ok && ident(r2).0 is Ok {
        if let Ok(tok) = expect_one_of(r3, kinds).0 {
            let r4 = expect_one_of(r3, kinds).1;
            let pair = (ident(ts).0->Ok_0, ident(r2).0->Ok_0);
            if tok.ty != TokenType::CloseParen {
                lemma_param_pairs_form(r4);
                if let Ok(more) = param_pairs(r4).0 {
                    let all = seq![pair] + more;
                    assert forall|i: int| 0 <= i < all.len() implies is_name(
                        (#[trigger] all[i]).0,
                    ) && is_name(all[i].1) by {
                        if i > 0 {
                            assert(all[i] == more[i - 1]);
                        }
                    }
                }
            }
        }
    }
}

/// A parameter list read from well-formed tokens holds names with names of
/// types.
pub proof fn lemma_params_form(ts: Seq<SpecToken>)
    requires
        all_well_formed(ts),
    ensures
        all_well_formed(params(ts).1),
        params(ts).0 matches Ok(ps) ==> params_in_source_form(ps),
{
    lemma_expect_form(ts, TokenType::OpenParen);
    let r1 = expect(ts, TokenType::OpenParen).1;
    if r1.len() > 0 {
        lemma_rest_well_formed(r1);
    }
    lemma_param_pairs_form(r1);
}

/// A statement read from well-formed tokens is in source form.
pub proof fn lemma_stmt_form(ts: Seq<SpecToken>)
    requires
        all_well_formed(ts),
    ensures
        all_well_formed(stmt(ts).1),
        stmt(ts).0 matches Ok(s) ==> s.in_source_form(),
    decreases ts.len(), 2int,
{
    if ts.len() > 0 {
        if ts[0].ty == TokenType::Let {
            lemma_let_form(ts);
        } else if ts[0].ty == TokenType::Fn {
            lemma_fn_def_form(ts);
        }
    }
}

/// A function definition read from well-formed tokens is in source form.
pub proof fn lemma_fn_def_form(ts: Seq<SpecToken>)
    requires
        all_well_formed(ts),
    ensures
        all_well_formed(fn_def(ts).1),
        fn_def(ts).0 matches Ok(s) ==> s.in_source_form(),
    decreases ts.len(), 1int,
{
    lemma_expect_form(ts, TokenType::Fn);
    let r1 = expect(ts, TokenType::Fn).1;
    lemma_ident_form(r1);
    let r2 = ident(r1).1;
    lemma_params_form(r2);
    lemma_params_rest(r2);
    let r3 = params(r2).1;
    lemma_expect_form(r3, TokenType::Colon);
    let r4 = expect(r3, TokenType::Colon).1;
    lemma_ident_form(r4);
    let r5 = ident(r4).1;
    if expect(ts, TokenType::Fn).0 is Ok && ident(r1).0 is Ok && params(r2).0 is Ok && expect(
        r3,
        TokenType::Colon,
    ).0 is Ok && ident(r4).0 is Ok {
        lemma_block_form(r5);
    }
}

/// The statements of a block read from well-formed tokens are in source
/// form.
pub proof fn lemma_block_form(ts: Seq<SpecToken>)
    requires
        all_well_formed(ts),
    ensures
        all_well_formed(block(ts).1),
        block(ts).0 matches Ok(ss) ==> all_in_source_form(ss),
    decreases ts.len(), 4int,
{
    lemma_expect_form(ts, TokenType::OpenBrace);
    if expect(ts, TokenType::OpenBrace).0 is Ok {
        lemma_block_items_form(expect(ts, TokenType::OpenBrace).1);
    }
}

/// The statements of a block, read from well-formed tokens up to the brace
/// that closes it, are in source form.
pub proof fn lemma_block_items_form(ts: Seq<SpecToken>)
    requires
        all_well_formed(ts),
    ensures
        all_well_formed(block_items(ts).1),
        block_items(ts).0 matches Ok(ss) ==> all_in_source_form(ss),
    decreases ts.len(), 3int,
{
    if ts.len() > 0 {
        lemma_rest_well_formed(ts);
        if ts[0].ty != TokenType::CloseBrace {
            lemma_stmt_form(ts);
            lemma_stmt_rest(ts);
            if let Ok(first) = stmt(ts).0 {
                lemma_block_items_form(stmt(ts).1);
                if let Ok(more) = block_items(stmt(ts).1).0 {
                    lemma_all_in_source_form_cons(first, more);
                }
            }
        }
    }
}

/// A statement in source form before statements in source form gives
/// statements in source form.
pub proof fn lemma_all_in_source_form_cons(first: SpecStatement, more: Seq<SpecStatement>)
    requires
        first.in_source_form(),
        all_in_source_form(more),
    ensures
        all_in_source_form(seq![first] + more),
{
    let all = seq![first] + more;
    assert forall|i: int| 0 <= i < all.len() implies (#[trigger] all[i]).in_source_form() by {
        if i > 0 {
            assert(all[i] == more[i - 1]);
        }
    }
}

/// The statements read from well-formed tokens are in source form.
pub proof fn lemma_statements_form(ts: Seq<SpecToken>)
    requires
        all_well_formed(ts),
    ensures
        all_well_formed(statements(ts).1),
        statements(ts).0 matches Ok(ss) ==> all_in_source_form(ss),
    decreases ts.len(),
{
    lemma_stmt_form(ts);
    lemma_stmt_rest(ts);
    if let Ok(first) = stmt(ts).0 {
        lemma_statements_form(stmt(ts).1);
        if let Ok(more) = statements(stmt(ts).1).0 {
            lemma_all_in_source_form_cons(first, more);
        }
    }
}

/// What comes out of parsing is in source form: every statement of a
/// program read from well-formed tokens is a `let` statement or a function
/// definition, every name in it is a word that is no keyword, and every
/// literal is a number that is not negative and fits in 128 bits with a
/// sign.
pub proof fn law_parsed_in_source_form(ts: Seq<SpecToken>)
    requires
        all_well_formed(ts),
    ensures
        program(ts).0 matches Ok(p) ==> all_in_source_form(p.0),
{
    lemma_statements_form(ts);
}

} // verus!
