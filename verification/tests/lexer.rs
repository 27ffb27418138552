use toylang::lexer::{is_valid_ident, Lexer, Token, TokenType};

#[test]
fn basic() {
    let code = "+-*/.,:;=";
    let mut lex = Lexer::from(code);

    let mut tok = lex.next();
    assert!(tok.is_some_and(|t| t.ty == TokenType::Plus));

    tok = lex.next();
    assert!(tok.is_some_and(|t| t.ty == TokenType::Minus));

    tok = lex.next();
    assert!(tok.is_some_and(|t| t.ty == TokenType::Star));

    tok = lex.next();
    assert!(tok.is_some_and(|t| t.ty == TokenType::Slash));

    tok = lex.next();
    assert!(tok.is_some_and(|t| t.ty == TokenType::Dot));

    tok = lex.next();
    assert!(tok.is_some_and(|t| t.ty == TokenType::Comma));

    tok = lex.next();
    assert!(tok.is_some_and(|t| t.ty == TokenType::Colon));

    tok = lex.next();
    assert!(tok.is_some_and(|t| t.ty == TokenType::Semicolon));

    tok = lex.next();
    assert!(tok.is_some_and(|t| t.ty == TokenType::Assign));

    tok = lex.next();
    assert!(tok.is_none());
}

#[test]
fn comparison() {
    let code = "= ! != == > >= < <=";
    let mut lex = Lexer::from(code);

    let mut tok = lex.next();
    assert!(tok.is_some_and(|t| t.ty == TokenType::Assign));

    tok = lex.next();
    assert!(tok.is_some_and(|t| t.ty == TokenType::Bang));

    tok = lex.next();
    assert!(tok.is_some_and(|t| t.ty == TokenType::Neq));

    tok = lex.next();
    assert!(tok.is_some_and(|t| t.ty == TokenType::Eq));

    tok = lex.next();
    assert!(tok.is_some_and(|t| t.ty == TokenType::Gt));

    tok = lex.next();
    assert!(tok.is_some_and(|t| t.ty == TokenType::Gte));

    tok = lex.next();
    assert!(tok.is_some_and(|t| t.ty == TokenType::Lt));

    tok = lex.next();
    assert!(tok.is_some_and(|t| t.ty == TokenType::Lte));

    tok = lex.next();
    assert!(tok.is_none());
}

#[test]
fn ident() {
    let code = "abubadibaba some_ident12";
    let mut lex = Lexer::from(code);

    let tok = lex.next();
    assert!(tok.is_some());

    let tok = tok.unwrap();
    assert_eq!(tok.ty, TokenType::Ident);
    assert_eq!(tok.lit, b"abubadibaba");

    let tok = lex.next();
    assert!(tok.is_some());

    let tok = tok.unwrap();
    assert_eq!(tok.ty, TokenType::Ident);
    assert_eq!(tok.lit, b"some_ident12");

    assert!(lex.next().is_none());
}

#[test]
fn keywords() {
    let code = "let fn";
    let mut lex = Lexer::from(code);

    let tok = lex.next();
    assert!(tok.is_some());
    assert_eq!(tok.unwrap().ty, TokenType::Let);

    let tok = lex.next();
    assert!(tok.is_some_and(|t| t.ty == TokenType::Fn));
    assert!(lex.next().is_none());
}

#[test]
fn literals() {
    let code = "123 999 0717";
    let mut lex = Lexer::from(code);

    let tok = lex.next();
    assert!(tok.is_some());

    let tok = tok.unwrap();
    assert_eq!(tok.ty, TokenType::IntLit);
    assert_eq!(tok.lit, b"123");

    let tok = lex.next();
    assert!(tok.is_some());

    let tok = tok.unwrap();
    assert_eq!(tok.ty, TokenType::IntLit);
    assert_eq!(tok.lit, b"999");

    let tok = lex.next();
    assert!(tok.is_some());

    let tok = tok.unwrap();
    assert_eq!(tok.ty, TokenType::IntLit);
    assert_eq!(tok.lit, b"0717");

    assert!(lex.next().is_none());
}

fn lex_all(code: &str) -> Vec<(TokenType, Vec<u8>)> {
    let mut lex = Lexer::from(code);
    let mut out = Vec::new();
    while let Some(tok) = lex.next() {
        out.push((tok.ty, tok.lit.to_vec()));
    }
    assert!(lex.next().is_none());
    out
}

fn one(ty: TokenType, lit: &str) -> Vec<(TokenType, Vec<u8>)> {
    vec![(ty, lit.as_bytes().to_vec())]
}

#[test]
fn every_operator_alone_is_one_token_with_its_text() {
    let cases = [
        (".", TokenType::Dot),
        (",", TokenType::Comma),
        (":", TokenType::Colon),
        (";", TokenType::Semicolon),
        ("+", TokenType::Plus),
        ("-", TokenType::Minus),
        ("*", TokenType::Star),
        ("/", TokenType::Slash),
        ("(", TokenType::OpenParen),
        (")", TokenType::CloseParen),
        ("{", TokenType::OpenBrace),
        ("}", TokenType::CloseBrace),
        ("=", TokenType::Assign),
        ("!", TokenType::Bang),
        (">", TokenType::Gt),
        ("<", TokenType::Lt),
        ("==", TokenType::Eq),
        ("!=", TokenType::Neq),
        (">=", TokenType::Gte),
        ("<=", TokenType::Lte),
    ];
    for (text, ty) in cases {
        assert_eq!(lex_all(text), one(ty, text));
    }
}

#[test]
fn two_byte_operator_wins_over_its_first_byte() {
    assert_eq!(
        lex_all("==="),
        vec![
            (TokenType::Eq, b"==".to_vec()),
            (TokenType::Assign, b"=".to_vec()),
        ]
    );
    assert_eq!(
        lex_all("<=>"),
        vec![
            (TokenType::Lte, b"<=".to_vec()),
            (TokenType::Gt, b">".to_vec()),
        ]
    );
    assert_eq!(
        lex_all("= ="),
        vec![
            (TokenType::Assign, b"=".to_vec()),
            (TokenType::Assign, b"=".to_vec()),
        ]
    );
}

#[test]
fn word_that_is_no_keyword_is_an_ident() {
    assert_eq!(lex_all("some_ident12"), one(TokenType::Ident, "some_ident12"));
    assert_eq!(lex_all("x"), one(TokenType::Ident, "x"));
    assert_eq!(lex_all("Fn"), one(TokenType::Ident, "Fn"));
    assert_eq!(lex_all("LET"), one(TokenType::Ident, "LET"));
}

#[test]
fn keyword_only_as_a_whole_word() {
    assert_eq!(lex_all("let"), one(TokenType::Let, "let"));
    assert_eq!(lex_all("fn"), one(TokenType::Fn, "fn"));
    assert_eq!(lex_all("letx"), one(TokenType::Ident, "letx"));
    assert_eq!(lex_all("fn_"), one(TokenType::Ident, "fn_"));
    assert_eq!(lex_all("le"), one(TokenType::Ident, "le"));
    assert_eq!(lex_all("let1"), one(TokenType::Ident, "let1"));
}

#[test]
fn word_must_start_with_a_letter() {
    assert_eq!(
        lex_all("_a"),
        vec![
            (TokenType::Illegal, b"_".to_vec()),
            (TokenType::Ident, b"a".to_vec()),
        ]
    );
    assert_eq!(
        lex_all("1a"),
        vec![
            (TokenType::IntLit, b"1".to_vec()),
            (TokenType::Ident, b"a".to_vec()),
        ]
    );
}

#[test]
fn digit_run_is_one_literal_with_leading_zeros_kept() {
    assert_eq!(lex_all("0717"), one(TokenType::IntLit, "0717"));
    assert_eq!(lex_all("000"), one(TokenType::IntLit, "000"));
    assert_eq!(
        lex_all("12_3"),
        vec![
            (TokenType::IntLit, b"12".to_vec()),
            (TokenType::Illegal, b"_".to_vec()),
            (TokenType::IntLit, b"3".to_vec()),
        ]
    );
}

#[test]
fn byte_after_a_word_or_number_is_not_lost() {
    assert_eq!(
        lex_all("x=5;"),
        vec![
            (TokenType::Ident, b"x".to_vec()),
            (TokenType::Assign, b"=".to_vec()),
            (TokenType::IntLit, b"5".to_vec()),
            (TokenType::Semicolon, b";".to_vec()),
        ]
    );
    assert_eq!(
        lex_all("f(a)"),
        vec![
            (TokenType::Ident, b"f".to_vec()),
            (TokenType::OpenParen, b"(".to_vec()),
            (TokenType::Ident, b"a".to_vec()),
            (TokenType::CloseParen, b")".to_vec()),
        ]
    );
}

#[test]
fn blanks_never_come_out_and_their_number_is_of_no_account() {
    let plain = lex_all("let x = 5 ;");
    assert_eq!(lex_all("  let\tx\n=\r\n5 \x0c ;  "), plain);
    assert_eq!(lex_all("let x=5;"), plain);
    assert_eq!(lex_all(""), vec![]);
    assert_eq!(lex_all(" \t\r\n"), vec![]);
    for (_, lit) in plain {
        assert!(lit.iter().all(|b| !b.is_ascii_whitespace()));
    }
}

#[test]
fn byte_that_starts_no_token_is_illegal() {
    assert_eq!(lex_all("#"), one(TokenType::Illegal, "#"));
    assert_eq!(
        lex_all("a@b"),
        vec![
            (TokenType::Ident, b"a".to_vec()),
            (TokenType::Illegal, b"@".to_vec()),
            (TokenType::Ident, b"b".to_vec()),
        ]
    );
    let mut lex = Lexer::from("\u{e9}");
    let first = lex.next().unwrap();
    assert_eq!(first.ty, TokenType::Illegal);
    assert_eq!(first.lit, &[0xc3u8][..]);
    let second = lex.next().unwrap();
    assert_eq!(second.ty, TokenType::Illegal);
    assert_eq!(second.lit, &[0xa9u8][..]);
    assert!(lex.next().is_none());
}

#[test]
fn end_of_input_stays() {
    let mut lex = Lexer::from("a");
    assert!(lex.next().is_some());
    assert!(lex.next().is_none());
    assert!(lex.next().is_none());
    assert!(lex.next().is_none());
}

#[test]
fn token_constructors() {
    let tok = Token::new(TokenType::Plus, b"+");
    assert_eq!(tok.ty, TokenType::Plus);
    assert_eq!(tok.lit, b"+");

    let tok = Token::illegal(b"#");
    assert_eq!(tok.ty, TokenType::Illegal);
    assert_eq!(tok.lit, b"#");

    assert_eq!(Token::keyword(b"let").ty, TokenType::Let);
    assert_eq!(Token::keyword(b"fn").ty, TokenType::Fn);
    assert_eq!(Token::keyword(b"lets").ty, TokenType::Ident);
    assert_eq!(Token::keyword(b"fun").ty, TokenType::Ident);
    assert_eq!(Token::keyword(b"").ty, TokenType::Ident);
    assert_eq!(Token::keyword(b"lets").lit, b"lets");
}

#[test]
fn bytes_of_a_word() {
    assert!(is_valid_ident(b'_'));
    assert!(is_valid_ident(b'a'));
    assert!(is_valid_ident(b'z'));
    assert!(is_valid_ident(b'A'));
    assert!(is_valid_ident(b'Z'));
    assert!(is_valid_ident(b'0'));
    assert!(is_valid_ident(b'9'));
    assert!(!is_valid_ident(b' '));
    assert!(!is_valid_ident(b'-'));
    assert!(!is_valid_ident(b'@'));
    assert!(!is_valid_ident(b'['));
    assert!(!is_valid_ident(b'`'));
    assert!(!is_valid_ident(b'{'));
    assert!(!is_valid_ident(b'/'));
    assert!(!is_valid_ident(b':'));
    assert!(!is_valid_ident(0x80));
}

#[test]
fn no_byte_but_blanks_is_lost() {
    let texts = [
        "let x=5;",
        "fn add(a: int, b: int): int { let r = a; }",
        "a=b==c!=d<=e>=f<g>h!i",
        "x1 1x _ # @@ 007 let1 fn_",
        "  \t lead and trail \r\n",
        "",
    ];
    for text in texts {
        let mut lexemes = Vec::new();
        for (_, lit) in lex_all(text) {
            lexemes.extend(lit);
        }
        let solid: Vec<u8> = text.bytes().filter(|b| !b.is_ascii_whitespace()).collect();
        assert_eq!(lexemes, solid);
    }
}

#[test]
fn scanning_the_lexemes_with_a_space_after_each_gives_the_tokens_back() {
    let texts = ["let x=5;", "fn f(a:t):u{let b=007;}", "a==b<=c!d", "# _ 1x"];
    for text in texts {
        let first = lex_all(text);
        let mut written = Vec::new();
        for (_, lit) in first.iter() {
            written.extend(lit.iter().copied());
            written.push(b' ');
        }
        let written = String::from_utf8(written).unwrap();
        assert_eq!(lex_all(&written), first);
    }
}
