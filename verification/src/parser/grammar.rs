//! The grammar, as functions from the tokens that are left to what is read
//! from their front and the tokens that are left after it.

use vstd::prelude::*;

use super::error::SpecError;
use crate::ast::expr::int_of_literal;
use crate::ast::{SpecExpr, SpecFunctionDef, SpecLetStatement, SpecProgram, SpecStatement};
use crate::lexer::{SpecToken, TokenType};

verus! {

/// What reading from the front of some tokens gives: a value or an error,
/// and the tokens that are left. After an error, they are those from the
/// place of the error on.
pub type Parsed<T> = (Result<T, SpecError>, Seq<SpecToken>);

/// The current token.
pub open spec fn peek(ts: Seq<SpecToken>) -> Result<SpecToken, SpecError> {
    if ts.len() > 0 {
        Ok(ts[0])
    } else {
        Err(SpecError::Eof)
    }
}

/// The tokens after the current one.
pub open spec fn advance(ts: Seq<SpecToken>) -> Seq<SpecToken> {
    if ts.len() > 0 {
        ts.drop_first()
    } else {
        ts
    }
}

/// A token of kind `kind`.
pub open spec fn expect(ts: Seq<SpecToken>, kind: TokenType) -> Parsed<SpecToken> {
    expect_one_of(ts, seq![kind])
}

/// A token of one of the kinds `kinds`.
pub open spec fn expect_one_of(ts: Seq<SpecToken>, kinds: Seq<TokenType>) -> Parsed<SpecToken> {
    if ts.len() == 0 {
        (Err(SpecError::Eof), ts)
    } else if kinds.contains(ts[0].ty) {
        (Ok(ts[0]), ts.drop_first())
    } else {
        (Err(SpecError::WrongToken { expected: kinds, got: ts[0] }), ts)
    }
}

/// Expecting one kind takes the current token exactly where it is of that
/// kind.
pub proof fn lemma_expect(ts: Seq<SpecToken>, kind: TokenType)
    ensures
        expect(ts, kind) == if ts.len() == 0 {
            (Err::<SpecToken, SpecError>(SpecError::Eof), ts)
        } else if ts[0].ty == kind {
            (Ok(ts[0]), ts.drop_first())
        } else {
            (Err(SpecError::WrongToken { expected: seq![kind], got: ts[0] }), ts)
        },
{
    assert(seq![kind][0] == kind);
}

/// A name: the lexeme of an `Ident` token.
pub open spec fn ident(ts: Seq<SpecToken>) -> Parsed<Seq<u8>> {
    match expect(ts, TokenType::Ident) {
        (Ok(tok), rest) => (Ok(tok.lit), rest),
        (Err(err), rest) => (Err(err), rest),
    }
}

/// An integer literal: an `IntLit` token whose lexeme writes a number that
/// fits. The token is taken also where its lexeme does not.
pub open spec fn int_lit(ts: Seq<SpecToken>) -> Parsed<SpecExpr> {
    match expect(ts, TokenType::IntLit) {
        (Ok(tok), rest) => match int_of_literal(tok.lit) {
            Ok(value) => (Ok(SpecExpr::IntLit(value)), rest),
            Err(why) => (Err(SpecError::BadIntLit(why)), rest),
        },
        (Err(err), rest) => (Err(err), rest),
    }
}

/// An expression: a name or an integer literal.
pub open spec fn expr(ts: Seq<SpecToken>) -> Parsed<SpecExpr> {
    if ts.len() == 0 {
        (Err(SpecError::Eof), ts)
    } else if ts[0].ty == TokenType::Ident {
        match ident(ts) {
            (Ok(name), rest) => (Ok(SpecExpr::Ident(name)), rest),
            (Err(err), rest) => (Err(err), rest),
        }
    } else if ts[0].ty == TokenType::IntLit {
        int_lit(ts)
    } else {
        (
            Err(
                SpecError::WrongToken {
                    expected: seq![TokenType::Ident, TokenType::IntLit],
                    got: ts[0],
                },
            ),
            ts,
        )
    }
}

/// `let` name `=` expression `;`
pub open spec fn let_stmt(ts: Seq<SpecToken>) -> Parsed<SpecStatement> {
    match expect(ts, TokenType::Let) {
        (Err(err), rest) => (Err(err), rest),
        (Ok(_), rest) => match ident(rest) {
            (Err(err), rest) => (Err(err), rest),
            (Ok(var), rest) => match expect(rest, TokenType::Assign) {
                (Err(err), rest) => (Err(err), rest),
                (Ok(_), rest) => match expr(rest) {
                    (Err(err), rest) => (Err(err), rest),
                    (Ok(value), rest) => match expect(rest, TokenType::Semicolon) {
                        (Err(err), rest) => (Err(err), rest),
                        (Ok(_), rest) => (
                            Ok(SpecStatement::Let(SpecLetStatement { var, expr: value })),
                            rest,
                        ),
                    },
                },
            },
        },
    }
}

/// The parameters of a list from its first one on, up to the `)` that ends
/// the list: name `:` name, then `,` and more of the same, or `)`.
pub open spec fn param_pairs(ts: Seq<SpecToken>) -> Parsed<Seq<(Seq<u8>, Seq<u8>)>>
    decreases ts.len(),
{
    match ident(ts) {
        (Err(err), rest) => (Err(err), rest),
        (Ok(name), rest) => match expect(rest, TokenType::Colon) {
            (Err(err), rest) => (Err(err), rest),
            (Ok(_), rest) => match ident(rest) {
                (Err(err), rest) => (Err(err), rest),
                (Ok(ty), rest) => match expect_one_of(
                    rest,
                    seq![TokenType::Comma, TokenType::CloseParen],
                ) {
                    (Err(err), rest) => (Err(err), rest),
                    (Ok(tok), rest) => if tok.ty == TokenType::CloseParen {
                        (Ok(seq![(name, ty)]), rest)
                    } else {
                        with_first((name, ty), param_pairs(rest))
                    },
                },
            },
        },
    }
}

/// `parsed` with `first` put before what it read.
pub open spec fn with_first<T>(first: T, parsed: Parsed<Seq<T>>) -> Parsed<Seq<T>> {
    with_prefix(seq![first], parsed)
}

/// `parsed` with `prefix` put before what it read.
pub open spec fn with_prefix<T>(prefix: Seq<T>, parsed: Parsed<Seq<T>>) -> Parsed<Seq<T>> {
    match parsed {
        (Ok(more), rest) => (Ok(prefix + more), rest),
        (Err(err), rest) => (Err(err), rest),
    }
}

/// Putting `first` before what was read and then `prefix` before that is
/// putting `prefix` with `first` at its end before what was read.
pub proof fn lemma_with_prefix_push<T>(prefix: Seq<T>, first: T, parsed: Parsed<Seq<T>>)
    ensures
        with_prefix(prefix, with_first(first, parsed)) == with_prefix(prefix.push(first), parsed),
{
    if let (Ok(more), _) = parsed {
        assert(prefix + (seq![first] + more) =~= prefix.push(first) + more);
    }
}

/// Putting nothing before what was read changes nothing.
pub proof fn lemma_with_prefix_empty<T>(parsed: Parsed<Seq<T>>)
    ensures
        with_prefix(Seq::empty(), parsed) == parsed,
{
    if let (Ok(more), _) = parsed {
        assert(Seq::<T>::empty() + more =~= more);
    }
}

/// A parameter list: `(`, then `)` at once or parameters up to `)`.
pub open spec fn params(ts: Seq<SpecToken>) -> Parsed<Seq<(Seq<u8>, Seq<u8>)>> {
    match expect(ts, TokenType::OpenParen) {
        (Err(err), rest) => (Err(err), rest),
        (Ok(_), rest) => if rest.len() > 0 && rest[0].ty == TokenType::CloseParen {
            (Ok(Seq::empty()), rest.drop_first())
        } else {
            param_pairs(rest)
        },
    }
}

/// What reading a parameter list leaves is no longer than what it was
/// given, and shorter where a list was read.
pub proof fn lemma_params_rest(ts: Seq<SpecToken>)
    ensures
        params(ts).1.len() <= ts.len(),
        params(ts).0 is Ok ==> params(ts).1.len() < ts.len(),
{
    if ts.len() > 0 {
        lemma_param_pairs_rest(ts.drop_first());
    }
}

/// What reading parameters leaves is no longer than what it was given, and
/// shorter where parameters were read.
pub proof fn lemma_param_pairs_rest(ts: Seq<SpecToken>)
    ensures
        param_pairs(ts).1.len() <= ts.len(),
        param_pairs(ts).0 is Ok ==> param_pairs(ts).1.len() < ts.len(),
    decreases ts.len(),
{
    if ts.len() >= 4 {
        lemma_param_pairs_rest(ts.skip(4));
        assert(ts.drop_first().drop_first().drop_first().drop_first() =~= ts.skip(4));
    }
}

/// A statement: a `let` statement or a function definition, by the kind of
/// the current token. Where no token is left there is no statement.
pub open spec fn stmt(ts: Seq<SpecToken>) -> Parsed<SpecStatement>
    decreases ts.len(), 2int,
{
    if ts.len() == 0 {
        (Err(SpecError::NoMore), ts)
    } else if ts[0].ty == TokenType::Let {
        let_stmt(ts)
    } else if ts[0].ty == TokenType::Fn {
        fn_def(ts)
    } else {
        (
            Err(
                SpecError::WrongToken { expected: seq![TokenType::Let, TokenType::Fn], got: ts[0] },
            ),
            ts,
        )
    }
}

/// `fn` name, a parameter list, `:`, the name of the result's type, and a
/// block.
pub open spec fn fn_def(ts: Seq<SpecToken>) -> Parsed<SpecStatement>
    decreases ts.len(), 1int,
{
    match expect(ts, TokenType::Fn) {
        (Err(err), rest) => (Err(err), rest),
        (Ok(_), rest) => match ident(rest) {
            (Err(err), rest) => (Err(err), rest),
            (Ok(name), rest) => match params(rest) {
                (Err(err), rest) => (Err(err), rest),
                (Ok(params), rest) => match expect(rest, TokenType::Colon) {
                    (Err(err), rest) => (Err(err), rest),
                    (Ok(_), rest) => match ident(rest) {
                        (Err(err), rest) => (Err(err), rest),
                        (Ok(return_type), rest) => {
                            proof {
                                lemma_params_rest(ts.drop_first().drop_first());
                            }
                            match block(rest) {
                                (Err(err), rest) => (Err(err), rest),
                                (Ok(body), rest) => (
                                    Ok(
                                        SpecStatement::FunctionDef(
                                            SpecFunctionDef { name, params, body, return_type },
                                        ),
                                    ),
                                    rest,
                                ),
                            }
                        },
                    },
                },
            },
        },
    }
}

/// A block: `{`, statements, `}`.
pub open spec fn block(ts: Seq<SpecToken>) -> Parsed<Seq<SpecStatement>>
    decreases ts.len(), 4int,
{
    match expect(ts, TokenType::OpenBrace) {
        (Err(err), rest) => (Err(err), rest),
        (Ok(_), rest) => block_items(rest),
    }
}

/// The statements of a block up to the `}` that ends it.
pub open spec fn block_items(ts: Seq<SpecToken>) -> Parsed<Seq<SpecStatement>>
    decreases ts.len(), 3int,
{
    if ts.len() == 0 {
        (Err(SpecError::Eof), ts)
    } else if ts[0].ty == TokenType::CloseBrace {
        (Ok(Seq::empty()), ts.drop_first())
    } else {
        match stmt(ts) {
            (Err(err), rest) => (Err(err), rest),
            (Ok(first), rest) => if rest.len() < ts.len() {
                with_first(first, block_items(rest))
            } else {
                // never so: a statement takes at least one token
                arbitrary()
            },
        }
    }
}

/// What reading a statement leaves is no longer than what it was given,
/// and shorter where a statement was read.
pub proof fn lemma_stmt_rest(ts: Seq<SpecToken>)
    ensures
        stmt(ts).1.len() <= ts.len(),
        stmt(ts).0 is Ok ==> stmt(ts).1.len() < ts.len(),
    decreases ts.len(), 2int,
{
    if ts.len() > 0 && ts[0].ty == TokenType::Fn {
        lemma_fn_def_rest(ts);
    }
}

/// What reading a function definition leaves is no longer than what it was
/// given, and shorter where a definition was read.
pub proof fn lemma_fn_def_rest(ts: Seq<SpecToken>)
    ensures
        fn_def(ts).1.len() <= ts.len(),
        fn_def(ts).0 is Ok ==> fn_def(ts).1.len() < ts.len(),
    decreases ts.len(), 1int,
{
    if ts.len() >= 2 {
        let after_name = ts.drop_first().drop_first();
        lemma_params_rest(after_name);
        let after_params = params(after_name).1;
        if after_params.len() >= 2 {
            lemma_block_rest(after_params.drop_first().drop_first());
        }
    }
}

/// What reading a block leaves is no longer than what it was given, and
/// shorter where a block was read.
pub proof fn lemma_block_rest(ts: Seq<SpecToken>)
    ensures
        block(ts).1.len() <= ts.len(),
        block(ts).0 is Ok ==> block(ts).1.len() < ts.len(),
    decreases ts.len(), 4int,
{
    if ts.len() > 0 {
        lemma_block_items_rest(ts.drop_first());
    }
}

/// What reading the statements of a block leaves is no longer than what it
/// was given, and shorter where they were read up to the closing brace.
pub proof fn lemma_block_items_rest(ts: Seq<SpecToken>)
    ensures
        block_items(ts).1.len() <= ts.len(),
        block_items(ts).0 is Ok ==> block_items(ts).1.len() < ts.len(),
    decreases ts.len(), 3int,
{
    if ts.len() > 0 && ts[0].ty != TokenType::CloseBrace {
        lemma_stmt_rest(ts);
        if stmt(ts).0 is Ok {
            lemma_block_items_rest(stmt(ts).1);
        }
    }
}

/// Reading parameters never ends in `NoMore`.
pub proof fn lemma_param_pairs_not_no_more(ts: Seq<SpecToken>)
    ensures
        param_pairs(ts).0 != Err::<Seq<(Seq<u8>, Seq<u8>)>, SpecError>(SpecError::NoMore),
    decreases ts.len(),
{
    if ts.len() >= 4 {
        lemma_param_pairs_not_no_more(ts.skip(4));
        assert(ts.drop_first().drop_first().drop_first().drop_first() =~= ts.skip(4));
    }
}

/// Reading a statement ends in `NoMore` exactly where no token is left.
pub proof fn lemma_stmt_no_more(ts: Seq<SpecToken>)
    ensures
        stmt(ts).0 == Err::<SpecStatement, SpecError>(SpecError::NoMore) <==> ts.len() == 0,
    decreases ts.len(), 2int,
{
    if ts.len() > 0 && ts[0].ty == TokenType::Fn {
        lemma_fn_def_not_no_more(ts);
    }
}

/// Reading a function definition never ends in `NoMore`.
pub proof fn lemma_fn_def_not_no_more(ts: Seq<SpecToken>)
    ensures
        fn_def(ts).0 != Err::<SpecStatement, SpecError>(SpecError::NoMore),
    decreases ts.len(), 1int,
{
    if ts.len() >= 2 {
        let after_name = ts.drop_first().drop_first();
        lemma_params_rest(after_name);
        if after_name.len() > 0 {
            lemma_param_pairs_not_no_more(after_name.drop_first());
        }
        let after_params = params(after_name).1;
        if after_params.len() >= 3 {
            lemma_block_items_not_no_more(after_params.drop_first().drop_first().drop_first());
        }
    }
}

/// Reading the statements of a block never ends in `NoMore`.
pub proof fn lemma_block_items_not_no_more(ts: Seq<SpecToken>)
    ensures
        block_items(ts).0 != Err::<Seq<SpecStatement>, SpecError>(SpecError::NoMore),
    decreases ts.len(), 3int,
{
    if ts.len() > 0 && ts[0].ty != TokenType::CloseBrace {
        lemma_stmt_no_more(ts);
        lemma_stmt_rest(ts);
        if stmt(ts).0 is Ok {
            lemma_block_items_not_no_more(stmt(ts).1);
        }
    }
}

/// Statements up to the end of the tokens.
pub open spec fn statements(ts: Seq<SpecToken>) -> Parsed<Seq<SpecStatement>>
    decreases ts.len(),
{
    match stmt(ts) {
        (Err(SpecError::NoMore), rest) => (Ok(Seq::empty()), rest),
        (Err(err), rest) => (Err(err), rest),
        (Ok(first), rest) => {
            proof {
                lemma_stmt_rest(ts);
            }
            with_first(first, statements(rest))
        },
    }
}

/// A program: statements up to the end of the tokens.
pub open spec fn program(ts: Seq<SpecToken>) -> Parsed<SpecProgram> {
    match statements(ts) {
        (Ok(stmts), rest) => (Ok(SpecProgram(stmts)), rest),
        (Err(err), rest) => (Err(err), rest),
    }
}

} // verus!
