//! How a tree is written: as tokens, and the tokens as text.

use vstd::prelude::*;

use crate::ast::expr::decimal_value;
use crate::ast::{
    all_in_source_form, is_name, params_in_source_form, SpecExpr, SpecLetStatement, SpecProgram,
    SpecStatement,
};
use crate::lexer::bytes::{
    BANG, CLOSE_BRACE, CLOSE_PAREN, COLON, COMMA, DIGIT_0, DOT, EQUALS, GREATER, LESS, LOWER_E,
    LOWER_F, LOWER_L, LOWER_N, LOWER_T, MINUS, OPEN_BRACE, OPEN_PAREN, PLUS, SEMICOLON, SLASH,
    SPACE, STAR,
};
use crate::lexer::pred::{is_digit_byte, is_number, ByteClass};
use crate::lexer::scanning::{all_well_formed, lemma_run_end_unique};
use crate::lexer::token::{fn_bytes, let_bytes};
use crate::lexer::{SpecToken, TokenType};

verus! {

/// The text of a token of kind `ty`, for the kinds whose tokens all have the
/// same text: keywords, operators and punctuation marks.
pub open spec fn mark_text(ty: TokenType) -> Seq<u8> {
    match ty {
        TokenType::Dot => seq![DOT],
        TokenType::Comma => seq![COMMA],
        TokenType::Semicolon => seq![SEMICOLON],
        TokenType::Colon => seq![COLON],
        TokenType::Plus => seq![PLUS],
        TokenType::Minus => seq![MINUS],
        TokenType::Star => seq![STAR],
        TokenType::Slash => seq![SLASH],
        TokenType::Let => let_bytes(),
        TokenType::Fn => fn_bytes(),
        TokenType::Assign => seq![EQUALS],
        TokenType::Bang => seq![BANG],
        TokenType::Eq => seq![EQUALS, EQUALS],
        TokenType::Neq => seq![BANG, EQUALS],
        TokenType::Gt => seq![GREATER],
        TokenType::Lt => seq![LESS],
        TokenType::Gte => seq![GREATER, EQUALS],
        TokenType::Lte => seq![LESS, EQUALS],
        TokenType::OpenParen => seq![OPEN_PAREN],
        TokenType::CloseParen => seq![CLOSE_PAREN],
        TokenType::OpenBrace => seq![OPEN_BRACE],
        TokenType::CloseBrace => seq![CLOSE_BRACE],
        TokenType::Ident | TokenType::IntLit | TokenType::Illegal => Seq::empty(),
    }
}

/// The token of a keyword, an operator or a punctuation mark.
pub open spec fn mark(ty: TokenType) -> SpecToken {
    SpecToken { ty, lit: mark_text(ty) }
}

/// The token of a name.
pub open spec fn name_token(name: Seq<u8>) -> SpecToken {
    SpecToken { ty: TokenType::Ident, lit: name }
}

/// The digits that write `n` in base ten, without leading zeros.
pub open spec fn decimal_digits(n: nat) -> Seq<u8>
    decreases n,
{
    if n < 10 {
        seq![(DIGIT_0 + n) as u8]
    } else {
        decimal_digits(n / 10).push((DIGIT_0 + n % 10) as u8)
    }
}

/// The token of an expression that is a name or a literal.
pub open spec fn expr_token(e: SpecExpr) -> SpecToken {
    match e {
        SpecExpr::Ident(name) => name_token(name),
        SpecExpr::IntLit(value) => SpecToken {
            ty: TokenType::IntLit,
            lit: decimal_digits(value as nat),
        },
        SpecExpr::Binary(_) => arbitrary(),
    }
}

/// The token `first` and then the tokens `rest`.
pub open spec fn then(first: SpecToken, rest: Seq<SpecToken>) -> Seq<SpecToken> {
    seq![first] + rest
}

/// The tokens of a `let` statement, and then `rest`.
pub open spec fn write_let(stmt: SpecLetStatement, rest: Seq<SpecToken>) -> Seq<SpecToken> {
    then(
        mark(TokenType::Let),
        then(
            name_token(stmt.var),
            then(
                mark(TokenType::Assign),
                then(expr_token(stmt.expr), then(mark(TokenType::Semicolon), rest)),
            ),
        ),
    )
}

/// The tokens of the parameters `ps` from the first one on, with commas
/// between them and the closing parenthesis after the last, and then
/// `rest`.
pub open spec fn write_pairs(ps: Seq<(Seq<u8>, Seq<u8>)>, rest: Seq<SpecToken>) -> Seq<
    SpecToken,
>
    decreases ps.len(),
{
    if ps.len() == 0 {
        rest
    } else {
        then(
            name_token(ps[0].0),
            then(
                mark(TokenType::Colon),
                then(
                    name_token(ps[0].1),
                    if ps.len() == 1 {
                        then(mark(TokenType::CloseParen), rest)
                    } else {
                        then(mark(TokenType::Comma), write_pairs(ps.drop_first(), rest))
                    },
                ),
            ),
        )
    }
}

/// The tokens of a parameter list, and then `rest`.
pub open spec fn write_params(ps: Seq<(Seq<u8>, Seq<u8>)>, rest: Seq<SpecToken>) -> Seq<
    SpecToken,
> {
    if ps.len() == 0 {
        then(mark(TokenType::OpenParen), then(mark(TokenType::CloseParen), rest))
    } else {
        then(mark(TokenType::OpenParen), write_pairs(ps, rest))
    }
}

/// The tokens of a statement, and then `rest`.
pub open spec fn write_stmt(stmt: SpecStatement, rest: Seq<SpecToken>) -> Seq<SpecToken>
    decreases stmt,
{
    match stmt {
        SpecStatement::Let(stmt) => write_let(stmt, rest),
        SpecStatement::Block(stmts) => then(
            mark(TokenType::OpenBrace),
            write_stmts(stmts, then(mark(TokenType::CloseBrace), rest)),
        ),
        SpecStatement::FunctionDef(def) => then(
            mark(TokenType::Fn),
            then(
                name_token(def.name),
                write_params(
                    def.params,
                    then(
                        mark(TokenType::Colon),
                        then(
                            name_token(def.return_type),
                            then(
                                mark(TokenType::OpenBrace),
                                write_stmts(def.body, then(mark(TokenType::CloseBrace), rest)),
                            ),
                        ),
                    ),
                ),
            ),
        ),
    }
}

/// The tokens of the statements `stmts`, one after another, and then `rest`.
pub open spec fn write_stmts(stmts: Seq<SpecStatement>, rest: Seq<SpecToken>) -> Seq<SpecToken>
    decreases stmts,
{
    if stmts.len() == 0 {
        rest
    } else {
        write_stmt(stmts[0], write_stmts(stmts.drop_first(), rest))
    }
}

/// The tokens of a program.
pub open spec fn write_program(p: SpecProgram) -> Seq<SpecToken> {
    write_stmts(p.0, Seq::empty())
}

/// The text of tokens: their lexemes, each with one space after it.
pub open spec fn text_of(ts: Seq<SpecToken>) -> Seq<u8>
    decreases ts.len(),
{
    if ts.len() == 0 {
        Seq::empty()
    } else {
        ts[0].lit + seq![SPACE] + text_of(ts.drop_first())
    }
}

/// The text of a program.
pub open spec fn source_text(p: SpecProgram) -> Seq<u8> {
    text_of(write_program(p))
}

/// The digits that write a number are a number, and their value is the
/// number that they write.
pub proof fn lemma_decimal_digits(n: nat)
    ensures
        is_number(decimal_digits(n)),
        decimal_value(decimal_digits(n)) == n,
    decreases n,
{
    let d = decimal_digits(n);
    if n < 10 {
        assert(d.len() == 1);
        assert(d.drop_last() =~= Seq::<u8>::empty());
        assert(decimal_value(d.drop_last()) == 0);
    } else {
        lemma_decimal_digits(n / 10);
        let front = decimal_digits(n / 10);
        assert(d.drop_last() =~= front);
        assert forall|i: int| 0 <= i < d.len() implies is_digit_byte(#[trigger] d[i]) by {
            if i < front.len() {
                assert(d[i] == front[i]);
            }
        }
    }
}

/// The token of a name is well formed.
pub proof fn lemma_name_token_well_formed(name: Seq<u8>)
    requires
        is_name(name),
    ensures
        name_token(name).well_formed(),
{
    assert forall|i: int| 0 <= i < name.len() implies ByteClass::Word.has(#[trigger] name[i]) by {}
    lemma_run_end_unique(name, 0, name.len() as int, ByteClass::Word);
    assert(name.subrange(0, name.len() as int) =~= name);
}

/// The token of a number is well formed.
pub proof fn lemma_number_token_well_formed(digits: Seq<u8>)
    requires
        is_number(digits),
    ensures
        (SpecToken { ty: TokenType::IntLit, lit: digits }).well_formed(),
{
    assert(is_digit_byte(digits[0]));
    assert forall|i: int| 0 <= i < digits.len() implies ByteClass::Digit.has(
        #[trigger] digits[i],
    ) by {}
    lemma_run_end_unique(digits, 0, digits.len() as int, ByteClass::Digit);
    assert(digits.subrange(0, digits.len() as int) =~= digits);
}

/// The token of a keyword, an operator or a punctuation mark is well
/// formed.
pub proof fn lemma_mark_well_formed(ty: TokenType)
    requires
        ty != TokenType::Ident,
        ty != TokenType::IntLit,
        ty != TokenType::Illegal,
    ensures
        mark(ty).well_formed(),
{
    let lit = mark(ty).lit;
    if ty == TokenType::Let || ty == TokenType::Fn {
        assert(let_bytes().len() == 3 && fn_bytes().len() == 2);
        assert(lit[0] == LOWER_L || lit[0] == LOWER_F);
        assert forall|i: int| 0 <= i < lit.len() implies ByteClass::Word.has(#[trigger] lit[i]) by {
            if ty == TokenType::Let {
                assert(lit[i] == LOWER_L || lit[i] == LOWER_E || lit[i] == LOWER_T);
            } else {
                assert(lit[i] == LOWER_F || lit[i] == LOWER_N);
            }
        }
        lemma_run_end_unique(lit, 0, lit.len() as int, ByteClass::Word);
        assert(lit.subrange(0, lit.len() as int) =~= lit);
    } else {
        assert(lit.len() == 1 || lit.len() == 2);
        assert(lit.subrange(0, lit.len() as int) =~= lit);
    }
}

/// The token of an expression in source form is well formed.
pub proof fn lemma_expr_token_well_formed(e: SpecExpr)
    requires
        e.in_source_form(),
    ensures
        expr_token(e).well_formed(),
{
    match e {
        SpecExpr::Ident(name) => {
            lemma_name_token_well_formed(name);
        },
        SpecExpr::IntLit(value) => {
            lemma_decimal_digits(value as nat);
            lemma_number_token_well_formed(decimal_digits(value as nat));
        },
        SpecExpr::Binary(_) => {},
    }
}

/// A well-formed token before well-formed tokens gives well-formed tokens.
pub proof fn lemma_then_well_formed(first: SpecToken, rest: Seq<SpecToken>)
    requires
        first.well_formed(),
        all_well_formed(rest),
    ensures
        all_well_formed(then(first, rest)),
{
    let ts = then(first, rest);
    assert forall|i: int| 0 <= i < ts.len() implies (#[trigger] ts[i]).well_formed() by {
        if i > 0 {
            assert(ts[i] == rest[i - 1]);
        }
    }
}

/// The tokens of parameters that are names are well formed.
pub proof fn lemma_write_pairs_well_formed(ps: Seq<(Seq<u8>, Seq<u8>)>, rest: Seq<SpecToken>)
    requires
        params_in_source_form(ps),
        all_well_formed(rest),
    ensures
        all_well_formed(write_pairs(ps, rest)),
    decreases ps.len(),
{
    if ps.len() > 0 {
        assert(is_name(ps[0].0) && is_name(ps[0].1));
        let last = if ps.len() == 1 {
            then(mark(TokenType::CloseParen), rest)
        } else {
            then(mark(TokenType::Comma), write_pairs(ps.drop_first(), rest))
        };
        if ps.len() == 1 {
            lemma_mark_well_formed(TokenType::CloseParen);
            lemma_then_well_formed(mark(TokenType::CloseParen), rest);
        } else {
            assert(params_in_source_form(ps.drop_first())) by {
                assert forall|i: int| 0 <= i < ps.drop_first().len() implies is_name(
                    (#[trigger] ps.drop_first()[i]).0,
                ) && is_name(ps.drop_first()[i].1) by {
                    assert(ps.drop_first()[i] == ps[i + 1]);
                }
            }
            lemma_write_pairs_well_formed(ps.drop_first(), rest);
            lemma_mark_well_formed(TokenType::Comma);
            lemma_then_well_formed(mark(TokenType::Comma), write_pairs(ps.drop_first(), rest));
        }
        lemma_name_token_well_formed(ps[0].1);
        lemma_then_well_formed(name_token(ps[0].1), last);
        lemma_mark_well_formed(TokenType::Colon);
        lemma_then_well_formed(mark(TokenType::Colon), then(name_token(ps[0].1), last));
        lemma_name_token_well_formed(ps[0].0);
        lemma_then_well_formed(
            name_token(ps[0].0),
            then(mark(TokenType::Colon), then(name_token(ps[0].1), last)),
        );
    }
}

/// The tokens of a statement in source form are well formed.
pub proof fn lemma_write_stmt_well_formed(s: SpecStatement, rest: Seq<SpecToken>)
    requires
        s.in_source_form(),
        all_well_formed(rest),
    ensures
        all_well_formed(write_stmt(s, rest)),
    decreases s,
{
    match s {
        SpecStatement::Let(l) => {
            let r4 = then(mark(TokenType::Semicolon), rest);
            let r3 = then(expr_token(l.expr), r4);
            let r2 = then(mark(TokenType::Assign), r3);
            let r1 = then(name_token(l.var), r2);
            lemma_mark_well_formed(TokenType::Semicolon);
            lemma_then_well_formed(mark(TokenType::Semicolon), rest);
            lemma_expr_token_well_formed(l.expr);
            lemma_then_well_formed(expr_token(l.expr), r4);
            lemma_mark_well_formed(TokenType::Assign);
            lemma_then_well_formed(mark(TokenType::Assign), r3);
            lemma_name_token_well_formed(l.var);
            lemma_then_well_formed(name_token(l.var), r2);
            lemma_mark_well_formed(TokenType::Let);
            lemma_then_well_formed(mark(TokenType::Let), r1);
        },
        SpecStatement::Block(_) => {},
        SpecStatement::FunctionDef(def) => {
            let r6 = then(mark(TokenType::CloseBrace), rest);
            let r5 = write_stmts(def.body, r6);
            let r4 = then(mark(TokenType::OpenBrace), r5);
            let r3 = then(name_token(def.return_type), r4);
            let r2 = then(mark(TokenType::Colon), r3);
            let r1 = write_params(def.params, r2);
            let r0 = then(name_token(def.name), r1);
            lemma_mark_well_formed(TokenType::CloseBrace);
            lemma_then_well_formed(mark(TokenType::CloseBrace), rest);
            lemma_write_stmts_well_formed(def.body, r6);
            lemma_mark_well_formed(TokenType::OpenBrace);
            lemma_then_well_formed(mark(TokenType::OpenBrace), r5);
            lemma_name_token_well_formed(def.return_type);
            lemma_then_well_formed(name_token(def.return_type), r4);
            lemma_mark_well_formed(TokenType::Colon);
            lemma_then_well_formed(mark(TokenType::Colon), r3);
            lemma_mark_well_formed(TokenType::OpenParen);
            if def.params.len() == 0 {
                lemma_mark_well_formed(TokenType::CloseParen);
                lemma_then_well_formed(mark(TokenType::CloseParen), r2);
                lemma_then_well_formed(
                    mark(TokenType::OpenParen),
                    then(mark(TokenType::CloseParen), r2),
                );
            } else {
                lemma_write_pairs_well_formed(def.params, r2);
                lemma_then_well_formed(mark(TokenType::OpenParen), write_pairs(def.params, r2));
            }
            lemma_name_token_well_formed(def.name);
            lemma_then_well_formed(name_token(def.name), r1);
            lemma_mark_well_formed(TokenType::Fn);
            lemma_then_well_formed(mark(TokenType::Fn), r0);
        },
    }
}

/// The tokens of statements in source form are well formed.
pub proof fn lemma_write_stmts_well_formed(stmts: Seq<SpecStatement>, rest: Seq<SpecToken>)
    requires
        all_in_source_form(stmts),
        all_well_formed(rest),
    ensures
        all_well_formed(write_stmts(stmts, rest)),
    decreases stmts,
{
    if stmts.len() > 0 {
        assert(stmts[0].in_source_form());
        assert(all_in_source_form(stmts.drop_first())) by {
            assert forall|i: int| 0 <= i < stmts.drop_first().len() implies (
            #[trigger] stmts.drop_first()[i]).in_source_form() by {
                assert(stmts.drop_first()[i] == stmts[i + 1]);
            }
        }
        lemma_write_stmts_well_formed(stmts.drop_first(), rest);
        lemma_write_stmt_well_formed(stmts[0], write_stmts(stmts.drop_first(), rest));
    }
}

} // verus!
