//! What holds of parsing: a literal has the value that its digits write,
//! and parsing what was written gives the tree back.

use vstd::prelude::*;

use super::error::SpecError;
use super::grammar::{
    block_items, expect, expr, ident, lemma_expect, lemma_stmt_rest, let_stmt, param_pairs,
    params, program, statements, stmt,
};
use super::parsed::{law_parsed_in_source_form, lemma_rest_well_formed};
use super::render::{
    decimal_digits, expr_token, lemma_decimal_digits, lemma_write_stmts_well_formed, mark,
    name_token, source_text, text_of, then, write_let, write_pairs, write_params, write_program,
    write_stmt, write_stmts,
};
use crate::ast::expr::{decimal_value, law_digits_value};
use crate::ast::{
    all_in_source_form, is_name, IntLitParseError, SpecExpr, SpecLetStatement, SpecProgram,
    SpecStatement,
};
use crate::lexer::bytes::SPACE;
use crate::lexer::laws::{law_blanks_before, law_blanks_between};
use crate::lexer::pred::{all_blanks, all_digits, is_digit_byte, is_number, ByteClass};
use crate::lexer::scanning::{
    all_well_formed, lemma_tokens_well_formed, run_end, scan, tokens, tokens_from,
};
use crate::lexer::{SpecToken, TokenType};

verus! {

/// A token put before tokens is their first, and they are what follows it.
pub proof fn lemma_then(first: SpecToken, rest: Seq<SpecToken>)
    ensures
        then(first, rest).len() == rest.len() + 1,
        then(first, rest)[0] == first,
        then(first, rest).drop_first() == rest,
{
    assert(then(first, rest).drop_first() =~= rest);
}

/// Expecting the kind of the first token takes that token.
pub proof fn lemma_expect_then(first: SpecToken, rest: Seq<SpecToken>, kind: TokenType)
    requires
        first.ty == kind,
    ensures
        expect(then(first, rest), kind) == (Ok::<SpecToken, SpecError>(first), rest),
{
    lemma_then(first, rest);
    lemma_expect(then(first, rest), kind);
}

/// Reading a name from its token gives the name.
pub proof fn lemma_ident_then(name: Seq<u8>, rest: Seq<SpecToken>)
    ensures
        ident(then(name_token(name), rest)) == (Ok::<Seq<u8>, SpecError>(name), rest),
{
    lemma_expect_then(name_token(name), rest, TokenType::Ident);
}

/// An `IntLit` token is read as the literal of the value that its digits
/// write in base ten, leading zeros or none; where that value does not fit
/// in 128 bits with a sign, the token is taken and the literal is refused.
pub proof fn law_literal_value(digits: Seq<u8>, rest: Seq<SpecToken>)
    requires
        is_number(digits),
    ensures
        expr(then(SpecToken { ty: TokenType::IntLit, lit: digits }, rest)) == if decimal_value(
            digits,
        ) <= i128::MAX {
            (Ok::<SpecExpr, SpecError>(SpecExpr::IntLit(decimal_value(digits))), rest)
        } else {
            (
                Err::<SpecExpr, SpecError>(
                    SpecError::BadIntLit(IntLitParseError::PosOverflow),
                ),
                rest,
            )
        },
{
    let tok = SpecToken { ty: TokenType::IntLit, lit: digits };
    lemma_then(tok, rest);
    lemma_expect_then(tok, rest, TokenType::IntLit);
    law_digits_value(digits);
}

/// Reading an expression in source form from its token gives the
/// expression.
pub proof fn lemma_read_expr(e: SpecExpr, rest: Seq<SpecToken>)
    requires
        e.in_source_form(),
    ensures
        expr(then(expr_token(e), rest)) == (Ok::<SpecExpr, SpecError>(e), rest),
{
    let ts = then(expr_token(e), rest);
    lemma_then(expr_token(e), rest);
    match e {
        SpecExpr::Ident(name) => {
            lemma_ident_then(name, rest);
        },
        SpecExpr::IntLit(value) => {
            lemma_expect_then(expr_token(e), rest, TokenType::IntLit);
            lemma_decimal_digits(value as nat);
            let d = decimal_digits(value as nat);
            assert(is_digit_byte(d[0]));
            assert(all_digits(d));
        },
        SpecExpr::Binary(_) => {},
    }
}

/// Reading a `let` statement in source form from its tokens gives the
/// statement.
pub proof fn lemma_read_let(stmt: SpecLetStatement, rest: Seq<SpecToken>)
    requires
        is_name(stmt.var),
        stmt.expr.in_source_form(),
    ensures
        let_stmt(write_let(stmt, rest)) == (
            Ok::<SpecStatement, SpecError>(SpecStatement::Let(stmt)),
            rest,
        ),
{
    let r5 = rest;
    let r4 = then(mark(TokenType::Semicolon), r5);
    let r3 = then(expr_token(stmt.expr), r4);
    let r2 = then(mark(TokenType::Assign), r3);
    let r1 = then(name_token(stmt.var), r2);
    lemma_expect_then(mark(TokenType::Let), r1, TokenType::Let);
    lemma_ident_then(stmt.var, r2);
    lemma_expect_then(mark(TokenType::Assign), r3, TokenType::Assign);
    lemma_read_expr(stmt.expr, r4);
    lemma_expect_then(mark(TokenType::Semicolon), r5, TokenType::Semicolon);
}

/// Reading parameters from their tokens gives the parameters.
pub proof fn lemma_read_pairs(ps: Seq<(Seq<u8>, Seq<u8>)>, rest: Seq<SpecToken>)
    requires
        ps.len() > 0,
    ensures
        param_pairs(write_pairs(ps, rest)) == (
            Ok::<Seq<(Seq<u8>, Seq<u8>)>, SpecError>(ps),
            rest,
        ),
    decreases ps.len(),
{
    let kinds = seq![TokenType::Comma, TokenType::CloseParen];
    assert(kinds[0] == TokenType::Comma && kinds[1] == TokenType::CloseParen);
    let last = if ps.len() == 1 {
        then(mark(TokenType::CloseParen), rest)
    } else {
        then(mark(TokenType::Comma), write_pairs(ps.drop_first(), rest))
    };
    let r2 = then(name_token(ps[0].1), last);
    let r1 = then(mark(TokenType::Colon), r2);
    lemma_ident_then(ps[0].0, r1);
    lemma_expect_then(mark(TokenType::Colon), r2, TokenType::Colon);
    lemma_ident_then(ps[0].1, last);
    if ps.len() == 1 {
        lemma_then(mark(TokenType::CloseParen), rest);
        assert(seq![(ps[0].0, ps[0].1)] =~= ps);
    } else {
        lemma_then(mark(TokenType::Comma), write_pairs(ps.drop_first(), rest));
        lemma_read_pairs(ps.drop_first(), rest);
        assert(seq![(ps[0].0, ps[0].1)] + ps.drop_first() =~= ps);
    }
}

/// Reading a parameter list from its tokens gives the list.
pub proof fn lemma_read_params(ps: Seq<(Seq<u8>, Seq<u8>)>, rest: Seq<SpecToken>)
    ensures
        params(write_params(ps, rest)) == (Ok::<Seq<(Seq<u8>, Seq<u8>)>, SpecError>(ps), rest),
{
    if ps.len() == 0 {
        let r1 = then(mark(TokenType::CloseParen), rest);
        lemma_expect_then(mark(TokenType::OpenParen), r1, TokenType::OpenParen);
        lemma_then(mark(TokenType::CloseParen), rest);
        assert(ps =~= Seq::empty());
    } else {
        let r1 = write_pairs(ps, rest);
        lemma_expect_then(mark(TokenType::OpenParen), r1, TokenType::OpenParen);
        lemma_read_pairs(ps, rest);
        lemma_then(name_token(ps[0].0), r1.drop_first());
    }
}

/// The tokens of a statement in source form start with `let` or `fn`.
pub proof fn lemma_write_stmt_first(stmt: SpecStatement, rest: Seq<SpecToken>)
    requires
        stmt.in_source_form(),
    ensures
        write_stmt(stmt, rest).len() > 0,
        stmt is Let ==> write_stmt(stmt, rest)[0] == mark(TokenType::Let),
        stmt is FunctionDef ==> write_stmt(stmt, rest)[0] == mark(TokenType::Fn),
{
}

/// Reading a statement in source form from its tokens gives the statement.
pub proof fn lemma_read_stmt(s: SpecStatement, rest: Seq<SpecToken>)
    requires
        s.in_source_form(),
    ensures
        stmt(write_stmt(s, rest)) == (Ok::<SpecStatement, SpecError>(s), rest),
    decreases s,
{
    lemma_write_stmt_first(s, rest);
    match s {
        SpecStatement::Let(l) => {
            lemma_read_let(l, rest);
        },
        SpecStatement::Block(_) => {},
        SpecStatement::FunctionDef(def) => {
            let r6 = then(mark(TokenType::CloseBrace), rest);
            let r5 = write_stmts(def.body, r6);
            let r4 = then(mark(TokenType::OpenBrace), r5);
            let r3 = then(name_token(def.return_type), r4);
            let r2 = then(mark(TokenType::Colon), r3);
            let r1 = write_params(def.params, r2);
            let r0 = then(name_token(def.name), r1);
            lemma_expect_then(mark(TokenType::Fn), r0, TokenType::Fn);
            lemma_ident_then(def.name, r1);
            lemma_read_params(def.params, r2);
            lemma_expect_then(mark(TokenType::Colon), r3, TokenType::Colon);
            lemma_ident_then(def.return_type, r4);
            lemma_expect_then(mark(TokenType::OpenBrace), r5, TokenType::OpenBrace);
            lemma_read_block_items(def.body, rest);
        },
    }
}

/// Reading the statements of a block from their tokens and the closing
/// brace gives the statements.
pub proof fn lemma_read_block_items(stmts: Seq<SpecStatement>, rest: Seq<SpecToken>)
    requires
        all_in_source_form(stmts),
    ensures
        block_items(write_stmts(stmts, then(mark(TokenType::CloseBrace), rest))) == (
            Ok::<Seq<SpecStatement>, SpecError>(stmts),
            rest,
        ),
    decreases stmts,
{
    let close = then(mark(TokenType::CloseBrace), rest);
    lemma_then(mark(TokenType::CloseBrace), rest);
    if stmts.len() == 0 {
        assert(stmts =~= Seq::empty());
    } else {
        let after = write_stmts(stmts.drop_first(), close);
        let ts = write_stmt(stmts[0], after);
        assert(stmts[0].in_source_form());
        lemma_write_stmt_first(stmts[0], after);
        lemma_read_stmt(stmts[0], after);
        lemma_stmt_rest(ts);
        assert(all_in_source_form(stmts.drop_first())) by {
            assert forall|i: int| 0 <= i < stmts.drop_first().len() implies (
            #[trigger] stmts.drop_first()[i]).in_source_form() by {
                assert(stmts.drop_first()[i] == stmts[i + 1]);
            }
        }
        lemma_read_block_items(stmts.drop_first(), rest);
        assert(seq![stmts[0]] + stmts.drop_first() =~= stmts);
    }
}

/// Reading statements from their tokens, with nothing after them, gives
/// the statements.
pub proof fn lemma_read_statements(stmts: Seq<SpecStatement>)
    requires
        all_in_source_form(stmts),
    ensures
        statements(write_stmts(stmts, Seq::empty())) == (
            Ok::<Seq<SpecStatement>, SpecError>(stmts),
            Seq::<SpecToken>::empty(),
        ),
    decreases stmts.len(),
{
    if stmts.len() == 0 {
        assert(stmts =~= Seq::empty());
    } else {
        let after = write_stmts(stmts.drop_first(), Seq::empty());
        let ts = write_stmt(stmts[0], after);
        assert(stmts[0].in_source_form());
        lemma_read_stmt(stmts[0], after);
        lemma_stmt_rest(ts);
        assert(all_in_source_form(stmts.drop_first())) by {
            assert forall|i: int| 0 <= i < stmts.drop_first().len() implies (
            #[trigger] stmts.drop_first()[i]).in_source_form() by {
                assert(stmts.drop_first()[i] == stmts[i + 1]);
            }
        }
        lemma_read_statements(stmts.drop_first());
        assert(seq![stmts[0]] + stmts.drop_first() =~= stmts);
    }
}

/// Parsing the tokens of a program in source form gives the program back,
/// and no token is left.
pub proof fn law_read_written(p: SpecProgram)
    requires
        all_in_source_form(p.0),
    ensures
        program(write_program(p)) == (Ok::<SpecProgram, SpecError>(p), Seq::<SpecToken>::empty()),
{
    lemma_read_statements(p.0);
}

/// Scanning the lexeme of a well-formed token gives that token alone.
pub proof fn lemma_tokens_of_lexeme(t: SpecToken)
    requires
        t.well_formed(),
    ensures
        tokens(t.lit) == seq![t],
{
    let lit = t.lit;
    assert(run_end(lit, 0, ByteClass::Space) == 0);
    assert(scan(lit, 0) == Some((t, lit.len() as int)));
    assert(run_end(lit, lit.len() as int, ByteClass::Space) == lit.len());
    assert(scan(lit, lit.len() as int) is None);
    assert(tokens_from(lit, lit.len() as int) =~= Seq::<SpecToken>::empty());
    assert(tokens(lit) =~= seq![t]);
}

/// Scanning the text of well-formed tokens gives the tokens back.
pub proof fn law_scan_written(ts: Seq<SpecToken>)
    requires
        all_well_formed(ts),
    ensures
        tokens(text_of(ts)) == ts,
    decreases ts.len(),
{
    if ts.len() == 0 {
        assert(tokens(Seq::<u8>::empty()) =~= Seq::<SpecToken>::empty());
        assert(ts =~= Seq::<SpecToken>::empty());
    } else {
        lemma_rest_well_formed(ts);
        law_scan_written(ts.drop_first());
        lemma_tokens_of_lexeme(ts[0]);
        let blank = seq![SPACE];
        assert(all_blanks(blank));
        law_blanks_between(ts[0].lit, blank, text_of(ts.drop_first()));
        assert(seq![ts[0]] + ts.drop_first() =~= ts);
    }
}

/// Parsing the text of a program in source form gives the program back:
/// scanning the text gives the program's tokens, and parsing those gives
/// the program, with no token left.
pub proof fn law_parse_written(p: SpecProgram)
    requires
        all_in_source_form(p.0),
    ensures
        tokens(source_text(p)) == write_program(p),
        program(tokens(source_text(p))) == (
            Ok::<SpecProgram, SpecError>(p),
            Seq::<SpecToken>::empty(),
        ),
{
    lemma_write_stmts_well_formed(p.0, Seq::empty());
    law_scan_written(write_program(p));
    law_read_written(p);
}

/// A text of nothing but blanks, or of nothing at all, is the program
/// without statements.
pub proof fn law_blank_text(text: Seq<u8>)
    requires
        all_blanks(text),
    ensures
        program(tokens(text)) == (
            Ok::<SpecProgram, SpecError>(SpecProgram(Seq::empty())),
            Seq::<SpecToken>::empty(),
        ),
{
    law_blanks_before(text, Seq::empty());
    assert(text + Seq::<u8>::empty() =~= text);
    assert(tokens(Seq::<u8>::empty()) =~= Seq::<SpecToken>::empty());
}

/// Parsing is idempotent through writing: where parsing a text gives a
/// program, parsing the text of that program gives the same program.
pub proof fn law_reparse(text: Seq<u8>)
    ensures
        program(tokens(text)).0 matches Ok(p) ==> program(tokens(source_text(p))) == (
            Ok::<SpecProgram, SpecError>(p),
            Seq::<SpecToken>::empty(),
        ),
{
    lemma_tokens_well_formed(text, 0);
    law_parsed_in_source_form(tokens(text));
    if let Ok(p) = program(tokens(text)).0 {
        law_parse_written(p);
    }
}

} // verus!
