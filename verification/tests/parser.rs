use toylang::ast::{
    BlockStatement, Expr, FunctionDef, IntLitParseError, LetStatement, ParamList, Program,
    Statement,
};
use toylang::lexer::{Lexer, Token, TokenType};
use toylang::parser::{Error, Parser};

fn parse(code: &str) -> Result<Program<'_>, Error<'_>> {
    let mut parser = Parser::new(Lexer::from(code));
    parser.parse_program()
}

fn let_int<'a>(var: &'a str, value: i128) -> Statement<'a> {
    Statement::Let(LetStatement { var, expr: Expr::IntLit(value) })
}

fn let_name<'a>(var: &'a str, value: &'a str) -> Statement<'a> {
    Statement::Let(LetStatement { var, expr: Expr::Ident(value) })
}

fn wrong<'a>(expected: Vec<TokenType>, ty: TokenType, lit: &'a str) -> Error<'a> {
    Error::WrongToken { expected, got: Token::new(ty, lit.as_bytes()) }
}

#[test]
fn let_statement() {
    assert_eq!(parse("let x = 5;"), Ok(Program(vec![let_int("x", 5)])));
}

#[test]
fn let_statement_without_blanks() {
    assert_eq!(parse("let x=5;"), Ok(Program(vec![let_int("x", 5)])));
}

#[test]
fn missing_semicolon_at_the_end() {
    let err = parse("let x = 5").unwrap_err();
    assert_eq!(err, Error::Eof);
}

#[test]
fn missing_semicolon_before_another_token() {
    let err = parse("let x = 5 let y = 6;").unwrap_err();
    assert_eq!(err, wrong(vec![TokenType::Semicolon], TokenType::Let, "let"));
    match err {
        Error::WrongToken { expected, got } => {
            assert_eq!(expected, vec![TokenType::Semicolon]);
            assert_eq!(got.ty, TokenType::Let);
        }
        other => panic!("{:?}", other),
    }
}

#[test]
fn function_definition() {
    let program = parse("fn add(a: int, b: int): int { let r = a; }").unwrap();
    assert_eq!(program.0.len(), 1);
    match &program.0[0] {
        Statement::FunctionDef(def) => {
            assert_eq!(def.name, "add");
            assert_eq!(def.params.0, vec![("a", "int"), ("b", "int")]);
            assert_eq!(def.return_type, "int");
            assert_eq!(def.body.0.len(), 1);
            assert_eq!(def.body.0[0], let_name("r", "a"));
        }
        other => panic!("{:?}", other),
    }
}

#[test]
fn empty_input_is_an_empty_program() {
    assert_eq!(parse(""), Ok(Program(vec![])));
    assert_eq!(parse("  \n\t "), Ok(Program(vec![])));
}

#[test]
fn statements_keep_their_order() {
    assert_eq!(
        parse("let a = 1; let b = a; let c = 3;"),
        Ok(Program(vec![let_int("a", 1), let_name("b", "a"), let_int("c", 3)]))
    );
}

#[test]
fn literal_with_leading_zeros_is_decimal() {
    assert_eq!(parse("let x = 0717;"), Ok(Program(vec![let_int("x", 717)])));
}

#[test]
fn literal_that_does_not_fit() {
    assert_eq!(
        parse("let x = 170141183460469231731687303715884105727;"),
        Ok(Program(vec![let_int("x", i128::MAX)]))
    );
    assert_eq!(
        parse("let x = 170141183460469231731687303715884105728;"),
        Err(Error::BadIntLit(IntLitParseError::PosOverflow))
    );
}

#[test]
fn function_without_parameters() {
    assert_eq!(
        parse("fn f(): unit {}"),
        Ok(Program(vec![Statement::FunctionDef(FunctionDef {
            name: "f",
            params: ParamList(vec![]),
            body: BlockStatement(vec![]),
            return_type: "unit",
        })]))
    );
}

#[test]
fn parameters_may_repeat_a_name() {
    let program = parse("fn f(a: int, a: bool): int {}").unwrap();
    match &program.0[0] {
        Statement::FunctionDef(def) => {
            assert_eq!(def.params.0, vec![("a", "int"), ("a", "bool")]);
        }
        other => panic!("{:?}", other),
    }
}

#[test]
fn nested_functions_and_statements_after_them() {
    let text = "fn outer(): int {
                    let a = 1;
                    fn inner(x: int): int { let b = x; }
                    let c = a;
                }
                let d = 4;";
    let program = parse(text).unwrap();
    let inner = Statement::FunctionDef(FunctionDef {
        name: "inner",
        params: ParamList(vec![("x", "int")]),
        body: BlockStatement(vec![let_name("b", "x")]),
        return_type: "int",
    });
    let outer = Statement::FunctionDef(FunctionDef {
        name: "outer",
        params: ParamList(vec![]),
        body: BlockStatement(vec![let_int("a", 1), inner, let_name("c", "a")]),
        return_type: "int",
    });
    assert_eq!(program, Program(vec![outer, let_int("d", 4)]));
}

#[test]
fn statement_must_start_with_let_or_fn() {
    assert_eq!(
        parse("x = 5;"),
        Err(wrong(vec![TokenType::Let, TokenType::Fn], TokenType::Ident, "x"))
    );
    assert_eq!(
        parse("let x = 5; 7"),
        Err(wrong(vec![TokenType::Let, TokenType::Fn], TokenType::IntLit, "7"))
    );
    assert_eq!(
        parse("{ let x = 5; }"),
        Err(wrong(vec![TokenType::Let, TokenType::Fn], TokenType::OpenBrace, "{"))
    );
}

#[test]
fn illegal_token_is_rejected_where_it_stands() {
    assert_eq!(
        parse("let x = #;"),
        Err(wrong(vec![TokenType::Ident, TokenType::IntLit], TokenType::Illegal, "#"))
    );
    assert_eq!(
        parse("let _x = 1;"),
        Err(wrong(vec![TokenType::Ident], TokenType::Illegal, "_"))
    );
    assert_eq!(
        parse("@"),
        Err(wrong(vec![TokenType::Let, TokenType::Fn], TokenType::Illegal, "@"))
    );
}

#[test]
fn pieces_of_a_let_statement_are_all_needed() {
    assert_eq!(parse("let"), Err(Error::Eof));
    assert_eq!(parse("let = 5;"), Err(wrong(vec![TokenType::Ident], TokenType::Assign, "=")));
    assert_eq!(parse("let let = 5;"), Err(wrong(vec![TokenType::Ident], TokenType::Let, "let")));
    assert_eq!(parse("let x"), Err(Error::Eof));
    assert_eq!(parse("let x 5;"), Err(wrong(vec![TokenType::Assign], TokenType::IntLit, "5")));
    assert_eq!(parse("let x == 5;"), Err(wrong(vec![TokenType::Assign], TokenType::Eq, "==")));
    assert_eq!(parse("let x ="), Err(Error::Eof));
    assert_eq!(
        parse("let x = ;"),
        Err(wrong(vec![TokenType::Ident, TokenType::IntLit], TokenType::Semicolon, ";"))
    );
    assert_eq!(
        parse("let x = 1 + 2;"),
        Err(wrong(vec![TokenType::Semicolon], TokenType::Plus, "+"))
    );
}

#[test]
fn pieces_of_a_function_definition_are_all_needed() {
    assert_eq!(parse("fn"), Err(Error::Eof));
    assert_eq!(parse("fn ("), Err(wrong(vec![TokenType::Ident], TokenType::OpenParen, "(")));
    assert_eq!(parse("fn f"), Err(Error::Eof));
    assert_eq!(parse("fn f:"), Err(wrong(vec![TokenType::OpenParen], TokenType::Colon, ":")));
    assert_eq!(parse("fn f("), Err(Error::Eof));
    assert_eq!(parse("fn f(5"), Err(wrong(vec![TokenType::Ident], TokenType::IntLit, "5")));
    assert_eq!(parse("fn f(a"), Err(Error::Eof));
    assert_eq!(parse("fn f(a)"), Err(wrong(vec![TokenType::Colon], TokenType::CloseParen, ")")));
    assert_eq!(parse("fn f(a:"), Err(Error::Eof));
    assert_eq!(parse("fn f(a: )"), Err(wrong(vec![TokenType::Ident], TokenType::CloseParen, ")")));
    assert_eq!(parse("fn f(a: int"), Err(Error::Eof));
    assert_eq!(
        parse("fn f(a: int b: int)"),
        Err(wrong(vec![TokenType::Comma, TokenType::CloseParen], TokenType::Ident, "b"))
    );
    assert_eq!(
        parse("fn f(a: int,)"),
        Err(wrong(vec![TokenType::Ident], TokenType::CloseParen, ")"))
    );
    assert_eq!(parse("fn f()"), Err(Error::Eof));
    assert_eq!(parse("fn f() {"), Err(wrong(vec![TokenType::Colon], TokenType::OpenBrace, "{")));
    assert_eq!(parse("fn f():"), Err(Error::Eof));
    assert_eq!(parse("fn f(): {"), Err(wrong(vec![TokenType::Ident], TokenType::OpenBrace, "{")));
    assert_eq!(parse("fn f(): int"), Err(Error::Eof));
    assert_eq!(
        parse("fn f(): int let"),
        Err(wrong(vec![TokenType::OpenBrace], TokenType::Let, "let"))
    );
    assert_eq!(parse("fn f(): int {"), Err(Error::Eof));
    assert_eq!(parse("fn f(): int { let x = 1;"), Err(Error::Eof));
    assert_eq!(
        parse("fn f(): int { x }"),
        Err(wrong(vec![TokenType::Let, TokenType::Fn], TokenType::Ident, "x"))
    );
    assert_eq!(
        parse("fn f(): int { { } }"),
        Err(wrong(vec![TokenType::Let, TokenType::Fn], TokenType::OpenBrace, "{"))
    );
}

#[test]
fn first_error_ends_the_parse() {
    assert_eq!(
        parse("let a = 1; let b 2; let c = ;"),
        Err(wrong(vec![TokenType::Assign], TokenType::IntLit, "2"))
    );
}

#[test]
fn current_token_stays_until_taken() {
    let mut parser = Parser::new(Lexer::from("a b"));
    assert_eq!(parser.cur(), Ok(Token::new(TokenType::Ident, b"a")));
    assert_eq!(parser.cur(), Ok(Token::new(TokenType::Ident, b"a")));
    parser.advance();
    assert_eq!(parser.cur(), Ok(Token::new(TokenType::Ident, b"b")));
    parser.advance();
    assert_eq!(parser.cur(), Err(Error::Eof));
    parser.advance();
    assert_eq!(parser.cur(), Err(Error::Eof));
}

#[test]
fn advance_without_looking_first() {
    let mut parser = Parser::new(Lexer::from("a b"));
    parser.advance();
    assert_eq!(parser.cur(), Ok(Token::new(TokenType::Ident, b"b")));
}

#[test]
fn expected_token_is_taken_and_another_stays() {
    let mut parser = Parser::new(Lexer::from("let x"));
    assert_eq!(
        parser.expect_cur(TokenType::Fn),
        Err(wrong(vec![TokenType::Fn], TokenType::Let, "let"))
    );
    assert_eq!(parser.expect_cur(TokenType::Let), Ok(Token::new(TokenType::Let, b"let")));
    assert_eq!(parser.expect_cur(TokenType::Ident), Ok(Token::new(TokenType::Ident, b"x")));
    assert_eq!(parser.expect_cur(TokenType::Ident), Err(Error::Eof));
}

#[test]
fn one_of_several_expected_tokens() {
    let mut parser = Parser::new(Lexer::from(", ) ;"));
    let kinds = vec![TokenType::Comma, TokenType::CloseParen];
    assert_eq!(
        parser.expect_cur_one_of(kinds.clone()),
        Ok(Token::new(TokenType::Comma, b","))
    );
    assert_eq!(
        parser.expect_cur_one_of(kinds.clone()),
        Ok(Token::new(TokenType::CloseParen, b")"))
    );
    assert_eq!(
        parser.expect_cur_one_of(kinds.clone()),
        Err(wrong(kinds.clone(), TokenType::Semicolon, ";"))
    );
    assert_eq!(
        parser.expect_cur_one_of(vec![]),
        Err(wrong(vec![], TokenType::Semicolon, ";"))
    );
    assert_eq!(parser.expect_cur(TokenType::Semicolon), Ok(Token::new(TokenType::Semicolon, b";")));
    assert_eq!(parser.expect_cur_one_of(kinds), Err(Error::Eof));
}

#[test]
fn expression_is_a_name_or_a_literal() {
    let mut parser = Parser::new(Lexer::from("abc 0717 +"));
    assert_eq!(parser.parse_expr(), Ok(Expr::Ident("abc")));
    assert_eq!(parser.parse_expr(), Ok(Expr::IntLit(717)));
    assert_eq!(
        parser.parse_expr(),
        Err(wrong(vec![TokenType::Ident, TokenType::IntLit], TokenType::Plus, "+"))
    );
    parser.advance();
    assert_eq!(parser.parse_expr(), Err(Error::Eof));
}

#[test]
fn statement_at_the_end_of_input() {
    let mut parser = Parser::new(Lexer::from(""));
    assert_eq!(parser.parse_stmt(), Err(Error::NoMore));
    assert_eq!(parser.parse_let(), Err(Error::Eof));
    assert_eq!(parser.parse_fn(), Err(Error::Eof));
    assert_eq!(parser.parse_block(), Err(Error::Eof));
    assert_eq!(parser.parse_params(), Err(Error::Eof));
    assert_eq!(parser.parse_ident(), Err(Error::Eof));
    assert_eq!(parser.parse_int(), Err(Error::Eof));
}

#[test]
fn block_alone() {
    let mut parser = Parser::new(Lexer::from("{ let a = 1; let b = 2; } let"));
    assert_eq!(
        parser.parse_block(),
        Ok(BlockStatement(vec![let_int("a", 1), let_int("b", 2)]))
    );
    assert_eq!(parser.cur(), Ok(Token::new(TokenType::Let, b"let")));
}

#[test]
fn wrong_token_constructor() {
    let got = Token::new(TokenType::Dot, b".");
    assert_eq!(
        Error::wrong_token(vec![TokenType::Comma], got),
        Error::WrongToken { expected: vec![TokenType::Comma], got }
    );
}

fn write_expr(expr: &Expr<'_>, out: &mut String) {
    match expr {
        Expr::IntLit(value) => out.push_str(&format!("{} ", value)),
        Expr::Ident(name) => out.push_str(&format!("{} ", name)),
        Expr::Binary(_) => unreachable!(),
    }
}

fn write_stmt(stmt: &Statement<'_>, out: &mut String) {
    match stmt {
        Statement::Let(l) => {
            out.push_str(&format!("let {} = ", l.var));
            write_expr(&l.expr, out);
            out.push_str("; ");
        }
        Statement::FunctionDef(def) => {
            out.push_str(&format!("fn {} ( ", def.name));
            let n = def.params.0.len();
            for (i, (name, ty)) in def.params.0.iter().enumerate() {
                out.push_str(&format!("{} : {} ", name, ty));
                if i + 1 < n {
                    out.push_str(", ");
                }
            }
            out.push_str(&format!(") : {} {{ ", def.return_type));
            for inner in def.body.0.iter() {
                write_stmt(inner, out);
            }
            out.push_str("} ");
        }
        Statement::Block(_) => unreachable!(),
    }
}

fn write_program(program: &Program<'_>) -> String {
    let mut out = String::new();
    for stmt in program.0.iter() {
        write_stmt(stmt, &mut out);
    }
    out
}

#[test]
fn parsing_what_was_written_gives_the_tree_back() {
    let texts = [
        "",
        "let x = 5;",
        "let   x=0717;let y=x;",
        "fn add(a: int, b: int): int { let r = a; }",
        "fn f():unit{}fn g(x:t):u{fn h():v{let a=000;}let b=h;}let z=17014118346046923173;",
    ];
    for text in texts {
        let first = parse(text).unwrap();
        let written = write_program(&first);
        let second = parse(&written).unwrap();
        assert_eq!(first, second);
        assert_eq!(write_program(&second), written);
    }
    assert_eq!(
        write_program(&parse("let   x=0717;let y=x;").unwrap()),
        "let x = 717 ; let y = x ; "
    );
}

#[test]
fn all_tokens_are_taken_by_a_parse_that_succeeds() {
    let mut parser = Parser::new(Lexer::from("let a = 1; fn f(): t {}"));
    assert!(parser.parse_program().is_ok());
    assert_eq!(parser.cur(), Err(Error::Eof));
    assert_eq!(parser.parse_program(), Ok(Program(vec![])));
}

#[test]
fn tokens_from_the_place_of_an_error_on_are_left() {
    let mut parser = Parser::new(Lexer::from("let a 1; let b = 2;"));
    assert_eq!(
        parser.parse_program(),
        Err(wrong(vec![TokenType::Assign], TokenType::IntLit, "1"))
    );
    assert_eq!(parser.cur(), Ok(Token::new(TokenType::IntLit, b"1")));

    let text = "let a = 340282366920938463463374607431768211456; let";
    let mut parser = Parser::new(Lexer::from(text));
    assert_eq!(
        parser.parse_program(),
        Err(Error::BadIntLit(IntLitParseError::PosOverflow))
    );
    assert_eq!(parser.cur(), Ok(Token::new(TokenType::Semicolon, b";")));
}

#[test]
fn scanner_can_be_handed_over_after_some_tokens() {
    let mut lex = Lexer::from("; let x = 1;");
    assert_eq!(lex.next().map(|t| t.ty), Some(TokenType::Semicolon));
    let mut parser = Parser::new(lex);
    assert_eq!(parser.parse_program(), Ok(Program(vec![let_int("x", 1)])));
}
