//! Front end of a small programming language: a lexical scanner and a
//! recursive-descent parser that turn source text into a syntax tree.
//!
//! - [`lexer`] turns a buffer of bytes into tokens, one at a time. What it
//!   gives is stated in `lexer::scanning`; `lexer::laws` holds what follows
//!   for words, numbers, operators and blanks.
//! - [`ast`] holds the syntax tree and, for each of its types, the
//!   mathematical value that contracts speak of.
//! - [`parser`] builds the tree from tokens. The grammar is stated in
//!   `parser::grammar` as functions on sequences of tokens; every parsing
//!   function returns what the grammar gives and leaves the tokens that the
//!   grammar leaves. `parser::parsed`, `parser::laws` and `parser::meaning`
//!   hold what follows: which trees come out, that parsing what was written
//!   gives the tree back, and on which tokens parsing succeeds.
//!
//! A text is parsed by `Parser::new(Lexer::from(text)).parse_program()`.

pub mod ast;
pub mod lexer;
pub mod parser;
