//! The parser: builds the syntax tree from tokens by recursive descent, with
//! one token of lookahead.

use vstd::prelude::*;

use vstd::string::StringSliceAdditionalSpecFns;

pub mod error;
pub mod grammar;
pub mod laws;
pub mod meaning;
pub mod parsed;
pub mod render;
pub mod source;

pub use self::error::{Error, ParserResult, SpecError};
pub use self::source::TokenSource;

use crate::ast::ident::lemma_word_is_utf8;
use crate::ast::{
    all_in_source_form, BlockStatement, Expr, FunctionDef, Ident, LetStatement, ParamList,
    Program, SpecStatement, Statement,
};
use crate::lexer::scanning::all_well_formed;
use crate::lexer::{SpecToken, Token, TokenType};

verus! {

/// Whether a parsing function's result `res` is what the grammar gives:
/// the value with the view `model`, or the error with that view.
pub open spec fn agrees<'t, T: View>(
    res: Result<T, Error<'t>>,
    model: Result<T::V, SpecError>,
) -> bool {
    match model {
        Ok(value) => res matches Ok(x) && x@ == value,
        Err(err) => res matches Err(x) && x@ == err,
    }
}

/// Whether the result `res` of reading a name is what the grammar gives:
/// the string with the bytes `model`, or the error with that view.
pub open spec fn agrees_name<'t>(
    res: Result<&str, Error<'t>>,
    model: Result<Seq<u8>, SpecError>,
) -> bool {
    match model {
        Ok(bytes) => res matches Ok(name) && name.spec_bytes() == bytes,
        Err(err) => res matches Err(x) && x@ == err,
    }
}

/// Whether `kind` is among `kinds`.
fn contains_kind(kinds: &Vec<TokenType>, kind: TokenType) -> (found: bool)
    ensures
        found == kinds@.contains(kind),
{
    let mut i: usize = 0;
    while i < kinds.len()
        invariant
            i <= kinds@.len(),
            forall|k: int| 0 <= k < i ==> kinds@[k] != kind,
        decreases kinds@.len() - i,
    {
        if kinds[i] == kind {
            return true;
        }
        i += 1;
    }
    false
}

/// A parser over a source of tokens. It holds the source and at most one
/// token that it has taken from the source and not yet used.
pub struct Parser<'a, S: TokenSource<'a>> {
    tokens: S,
    lookahead: Option<Token<'a>>,
}

impl<'a, S: TokenSource<'a>> Parser<'a, S> {
    /// Whether the parser is in order: the token that it holds, if any, is
    /// well formed.
    pub closed spec fn wf(&self) -> bool {
        self.lookahead matches Some(tok) ==> tok@.well_formed()
    }

    /// The tokens that are still to be parsed: the one held, if any, and
    /// those that the source has yet to give.
    pub closed spec fn remaining(&self) -> Seq<SpecToken> {
        match self.lookahead {
            Some(tok) => seq![tok@] + self.tokens.remaining(),
            None => self.tokens.remaining(),
        }
    }

    /// The tokens that are still to be parsed are all well formed.
    pub proof fn lemma_remaining_well_formed(&self)
        requires
            self.wf(),
        ensures
            all_well_formed(self.remaining()),
    {
        self.tokens.lemma_remaining_well_formed();
        let rest = self.tokens.remaining();
        let all = self.remaining();
        assert forall|i: int| 0 <= i < all.len() implies (#[trigger] all[i]).well_formed() by {
            if self.lookahead is Some && i > 0 {
                assert(all[i] == rest[i - 1]);
            }
        }
    }

    /// A parser of the tokens that `iter` gives.
    pub fn new(iter: S) -> (parser: Self)
        ensures
            parser.wf(),
            parser.remaining() == iter.remaining(),
    {
        Self { tokens: iter, lookahead: None }
    }

    /// Passes over the current token, if there is one.
    #[inline]
    pub fn advance(&mut self)
        requires
            old(self).wf(),
        ensures
            final(self).wf(),
            final(self).remaining() == grammar::advance(old(self).remaining()),
    {
        if self.lookahead.is_some() {
            self.lookahead = None;
            assert(self.remaining() =~= old(self).remaining().drop_first());
        } else {
            let _ = self.tokens.next_token();
        }
    }

    /// The current token, which stays current; `Eof` where none is left.
    #[inline]
    pub fn cur(&mut self) -> (res: ParserResult<'a, Token<'a>>)
        requires
            old(self).wf(),
        ensures
            final(self).wf(),
            final(self).remaining() == old(self).remaining(),
            agrees(res, grammar::peek(old(self).remaining())),
            res matches Ok(tok) ==> tok@.well_formed(),
    {
        if self.lookahead.is_none() {
            proof {
                self.tokens.lemma_remaining_well_formed();
            }
            let ghost before = self.tokens.remaining();
            let next = self.tokens.next_token();
            proof {
                if before.len() > 0 {
                    assert(before[0].well_formed());
                    assert(seq![before[0]] + before.drop_first() =~= before);
                }
            }
            self.lookahead = next;
        }
        match self.lookahead {
            Some(tok) => Ok(tok),
            None => Err(Error::Eof),
        }
    }

    /// Takes the current token if its kind is among `ts`; else the token
    /// stays, and the error names `ts` and the token.
    pub fn expect_cur_one_of(&mut self, ts: Vec<TokenType>) -> (res: ParserResult<'a, Token<'a>>)
        requires
            old(self).wf(),
        ensures
            final(self).wf(),
            final(self).remaining() == grammar::expect_one_of(old(self).remaining(), ts@).1,
            agrees(res, grammar::expect_one_of(old(self).remaining(), ts@).0),
            res matches Ok(tok) ==> tok@.well_formed(),
    {
        let cur = self.cur()?;
        if contains_kind(&ts, cur.ty) {
            self.advance();
            Ok(cur)
        } else {
            Err(Error::wrong_token(ts, cur))
        }
    }

    /// Takes the current token if it is of kind `tt`; else the token stays,
    /// and the error names `tt` and the token.
    pub fn expect_cur(&mut self, tt: TokenType) -> (res: ParserResult<'a, Token<'a>>)
        requires
            old(self).wf(),
        ensures
            final(self).wf(),
            final(self).remaining() == grammar::expect(old(self).remaining(), tt).1,
            agrees(res, grammar::expect(old(self).remaining(), tt).0),
            res matches Ok(tok) ==> tok@.well_formed(),
    {
        proof {
            grammar::lemma_expect(self.remaining(), tt);
        }
        let cur = self.cur()?;
        if tt == cur.ty {
            self.advance();
            Ok(cur)
        } else {
            let expected = vec![tt];
            assert(expected@ =~= seq![tt]);
            Err(Error::wrong_token(expected, cur))
        }
    }

    /// Reads an integer literal.
    pub fn parse_int(&mut self) -> (res: ParserResult<'a, Expr<'a>>)
        requires
            old(self).wf(),
        ensures
            final(self).wf(),
            final(self).remaining() == grammar::int_lit(old(self).remaining()).1,
            agrees(res, grammar::int_lit(old(self).remaining()).0),
    {
        let cur = self.expect_cur(TokenType::IntLit)?;
        match Expr::parse_int(cur.lit) {
            Ok(i) => Ok(i),
            Err(why) => Err(Error::BadIntLit(why)),
        }
    }

    /// Reads a name.
    pub fn parse_ident(&mut self) -> (res: ParserResult<'a, Ident<'a>>)
        requires
            old(self).wf(),
        ensures
            final(self).wf(),
            final(self).remaining() == grammar::ident(old(self).remaining()).1,
            agrees_name(res, grammar::ident(old(self).remaining()).0),
    {
        let cur = self.expect_cur(TokenType::Ident)?;
        proof {
            parsed::lemma_ident_is_name(cur@);
            lemma_word_is_utf8(cur@.lit);
        }
        let ident = std::str::from_utf8(cur.lit).unwrap();
        Ok(ident)
    }

    /// Reads an expression: a name or an integer literal.
    pub fn parse_expr(&mut self) -> (res: ParserResult<'a, Expr<'a>>)
        requires
            old(self).wf(),
        ensures
            final(self).wf(),
            final(self).remaining() == grammar::expr(old(self).remaining()).1,
            agrees(res, grammar::expr(old(self).remaining()).0),
    {
        let tok = self.cur()?;
        match tok.ty {
            TokenType::Ident => Ok(Expr::Ident(self.parse_ident()?)),
            TokenType::IntLit => self.parse_int(),
            _ => {
                let expected = vec![TokenType::Ident, TokenType::IntLit];
                assert(expected@ =~= seq![TokenType::Ident, TokenType::IntLit]);
                Err(Error::wrong_token(expected, tok))
            },
        }
    }

    /// Reads a `let` statement: `let`, a name, `=`, an expression, `;`.
    pub fn parse_let(&mut self) -> (res: ParserResult<'a, Statement<'a>>)
        requires
            old(self).wf(),
        ensures
            final(self).wf(),
            final(self).remaining() == grammar::let_stmt(old(self).remaining()).1,
            agrees(res, grammar::let_stmt(old(self).remaining()).0),
    {
        self.expect_cur(TokenType::Let)?;
        let var = self.parse_ident()?;
        self.expect_cur(TokenType::Assign)?;
        let expr = self.parse_expr()?;
        self.expect_cur(TokenType::Semicolon)?;

        Ok(Statement::Let(LetStatement { var, expr }))
    }

    /// Reads a parameter list: `(`, parameters with `,` between them, `)`.
    /// A parameter is a name, `:`, and the name of its type.
    pub fn parse_params(&mut self) -> (res: ParserResult<'a, ParamList<'a>>)
        requires
            old(self).wf(),
        ensures
            final(self).wf(),
            final(self).remaining() == grammar::params(old(self).remaining()).1,
            agrees(res, grammar::params(old(self).remaining()).0),
    {
        self.expect_cur(TokenType::OpenParen)?;

        let mut params: Vec<(Ident<'a>, Ident<'a>)> = vec![];
        if self.cur()?.ty == TokenType::CloseParen {
            self.advance();
            let list = ParamList(params);
            assert(list@ =~= Seq::empty());
            return Ok(list);
        }
        let ghost whole = grammar::params(old(self).remaining());
        let ghost mut done: Seq<(Seq<u8>, Seq<u8>)> = Seq::empty();
        proof {
            grammar::lemma_with_prefix_empty(grammar::param_pairs(self.remaining()));
        }

        loop
            invariant_except_break
                whole == grammar::with_prefix(done, grammar::param_pairs(self.remaining())),
            invariant
                self.wf(),
                whole == grammar::params(old(self).remaining()),
                ParamList(params)@ == done,
            ensures
                whole == (
                    Ok::<Seq<(Seq<u8>, Seq<u8>)>, SpecError>(done),
                    grammar::advance(self.remaining()),
                ),
                self.remaining().len() > 0,
            decreases self.remaining().len(),
        {
            let param_name = self.parse_ident()?;
            self.expect_cur(TokenType::Colon)?;
            let param_type = self.parse_ident()?;
            params.push((param_name, param_type));
            proof {
                let pair = (param_name.spec_bytes(), param_type.spec_bytes());
                let kinds = seq![TokenType::Comma, TokenType::CloseParen];
                assert(kinds[0] == TokenType::Comma && kinds[1] == TokenType::CloseParen);
                assert(ParamList(params)@ =~= done.push(pair));
                assert(done + seq![pair] =~= done.push(pair));
                grammar::lemma_with_prefix_push(
                    done,
                    pair,
                    grammar::param_pairs(grammar::advance(self.remaining())),
                );
                done = done.push(pair);
            }

            let cur_token = self.cur()?;
            match cur_token.ty {
                TokenType::Comma => self.advance(),
                TokenType::CloseParen => break ,
                _ => {
                    let expected = vec![TokenType::Comma, TokenType::CloseParen];
                    assert(expected@ =~= seq![TokenType::Comma, TokenType::CloseParen]);
                    return Err(Error::wrong_token(expected, cur_token))
                },
            }
        }

        self.advance();

        Ok(ParamList(params))
    }

    /// Reads a statement: a `let` statement or a function definition, by the
    /// kind of the current token. Where no token is left, the error is
    /// `NoMore`.
    pub fn parse_stmt(&mut self) -> (res: ParserResult<'a, Statement<'a>>)
        requires
            old(self).wf(),
        ensures
            final(self).wf(),
            final(self).remaining() == grammar::stmt(old(self).remaining()).1,
            agrees(res, grammar::stmt(old(self).remaining()).0),
        decreases old(self).remaining().len(), 2int,
    {
        let tok = self.cur();

        match tok {
            Ok(tok) => match tok.ty {
                TokenType::Let => self.parse_let(),
                TokenType::Fn => self.parse_fn(),
                _ => {
                    let expected = vec![TokenType::Let, TokenType::Fn];
                    assert(expected@ =~= seq![TokenType::Let, TokenType::Fn]);
                    Err(Error::wrong_token(expected, tok))
                },
            },
            Err(Error::Eof) => Err(Error::NoMore),
            Err(e) => Err(e),
        }
    }

    /// Reads a function definition: `fn`, a name, a parameter list, `:`, the
    /// name of the result's type, and a block.
    pub fn parse_fn(&mut self) -> (res: ParserResult<'a, Statement<'a>>)
        requires
            old(self).wf(),
        ensures
            final(self).wf(),
            final(self).remaining() == grammar::fn_def(old(self).remaining()).1,
            agrees(res, grammar::fn_def(old(self).remaining()).0),
        decreases old(self).remaining().len(), 1int,
    {
        self.expect_cur(TokenType::Fn)?;
        let name = self.parse_ident()?;
        proof {
            grammar::lemma_params_rest(self.remaining());
        }
        let params = self.parse_params()?;
        self.expect_cur(TokenType::Colon)?;
        let return_type = self.parse_ident()?;

        let body = self.parse_block()?;

        Ok(Statement::FunctionDef(FunctionDef { name, params, body, return_type }))
    }

    /// Reads a block: `{`, statements, `}`.
    pub fn parse_block(&mut self) -> (res: ParserResult<'a, BlockStatement<'a>>)
        requires
            old(self).wf(),
        ensures
            final(self).wf(),
            final(self).remaining() == grammar::block(old(self).remaining()).1,
            agrees(res, grammar::block(old(self).remaining()).0),
        decreases old(self).remaining().len(), 4int,
    {
        self.expect_cur(TokenType::OpenBrace)?;

        let mut stmts: Vec<Statement<'a>> = vec![];
        let ghost whole = grammar::block(old(self).remaining());
        let ghost mut done: Seq<SpecStatement> = Seq::empty();
        proof {
            grammar::lemma_with_prefix_empty(grammar::block_items(self.remaining()));
        }
        let mut cur_token = self.cur()?;

        while cur_token.ty != TokenType::CloseBrace
            invariant
                self.wf(),
                whole == grammar::block(old(self).remaining()),
                whole == grammar::with_prefix(done, grammar::block_items(self.remaining())),
                BlockStatement(stmts)@ == done,
                grammar::peek(self.remaining()) == Ok::<SpecToken, SpecError>(cur_token@),
                self.remaining().len() < old(self).remaining().len(),
            decreases self.remaining().len(),
        {
            proof {
                grammar::lemma_stmt_rest(self.remaining());
            }
            let stmt = self.parse_stmt()?;
            proof {
                grammar::lemma_with_prefix_push(
                    done,
                    stmt@,
                    grammar::block_items(self.remaining()),
                );
                done = done.push(stmt@);
            }
            stmts.push(stmt);
            assert(BlockStatement(stmts)@ =~= done);

            cur_token = self.cur()?;
        }

        self.advance();
        proof {
            assert(done + Seq::<SpecStatement>::empty() =~= done);
        }

        Ok(BlockStatement(stmts))
    }

    /// Reads a program: statements up to the end of the tokens.
    ///
    /// The first error ends the parse and is returned as it is; only the
    /// end of the tokens where a statement could start is no error.
    pub fn parse_program(&mut self) -> (res: ParserResult<'a, Program<'a>>)
        requires
            old(self).wf(),
        ensures
            final(self).wf(),
            final(self).remaining() == grammar::program(old(self).remaining()).1,
            agrees(res, grammar::program(old(self).remaining()).0),
            res is Ok ==> final(self).remaining().len() == 0,
            res matches Ok(program) ==> all_in_source_form(program@.0),
    {
        proof {
            self.lemma_remaining_well_formed();
            parsed::law_parsed_in_source_form(self.remaining());
        }
        let mut stmts: Vec<Statement<'a>> = vec![];
        let ghost whole = grammar::statements(self.remaining());
        let ghost mut done: Seq<SpecStatement> = Seq::empty();
        proof {
            grammar::lemma_with_prefix_empty(whole);
        }
        loop
            invariant_except_break
                whole == grammar::with_prefix(done, grammar::statements(self.remaining())),
            invariant
                self.wf(),
                whole == grammar::statements(old(self).remaining()),
                Program(stmts)@.0 == done,
            ensures
                whole == (Ok::<Seq<SpecStatement>, SpecError>(done), self.remaining()),
                self.remaining().len() == 0,
            decreases self.remaining().len(),
        {
            proof {
                grammar::lemma_stmt_rest(self.remaining());
                grammar::lemma_stmt_no_more(self.remaining());
            }
            let res = self.parse_stmt();
            match res {
                Ok(stmt) => {
                    proof {
                        grammar::lemma_with_prefix_push(
                            done,
                            stmt@,
                            grammar::statements(self.remaining()),
                        );
                        done = done.push(stmt@);
                    }
                    stmts.push(stmt);
                    assert(Program(stmts)@.0 =~= done);
                },
                Err(err) => {
                    if matches!(err, Error::NoMore) {
                        proof {
                            assert(done + Seq::<SpecStatement>::empty() =~= done);
                        }
                        break ;
                    } else {
                        return Err(err);
                    }
                },
            }
        }

        Ok(Program(stmts))
    }
}

} // verus!
