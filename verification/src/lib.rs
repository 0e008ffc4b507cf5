//! Front end of a small expression language: a lexer with one character of
//! lookahead and a recursive-descent parser with operator-precedence climbing.
pub mod ast;
pub mod calc;
pub mod chars;
pub mod error;
pub mod grammar;
pub mod lex_laws;
pub mod lexer;
pub mod number;
pub mod parse_laws;
pub mod parser;
pub mod source;
pub mod text;
pub mod token;
