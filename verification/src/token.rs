//! Tokens.
use vstd::prelude::*;

verus! {

/// A lexical token.
#[derive(Debug, Clone, PartialEq)]
pub enum Token {
    /// The end of the input.
    Eof,
    /// The keyword `def`.
    Def,
    /// The keyword `extern`.
    Extern,
    /// A name: a letter followed by letters and digits.
    Identifier(String),
    /// A number literal, held as it was written.
    Number(String),
    /// Any other character: punctuation and operators.
    Char(char),
}

/// What a token is, with its text as a sequence of characters.
pub enum TokenView {
    Eof,
    Def,
    Extern,
    Identifier(Seq<char>),
    Number(Seq<char>),
    Char(char),
}

impl View for Token {
    type V = TokenView;

    open spec fn view(&self) -> TokenView {
        match self {
            Token::Eof => TokenView::Eof,
            Token::Def => TokenView::Def,
            Token::Extern => TokenView::Extern,
            Token::Identifier(name) => TokenView::Identifier(name@),
            Token::Number(text) => TokenView::Number(text@),
            Token::Char(c) => TokenView::Char(*c),
        }
    }
}

impl Token {
    /// Whether the token is the single character `c`.
    pub fn is_char(&self, c: char) -> (b: bool)
        ensures
            b == (self@ == TokenView::Char(c)),
    {
        match self {
            Token::Char(d) => *d == c,
            _ => false,
        }
    }
}

/// The view of a token that may be missing.
pub open spec fn token_option_view(tok: Option<Token>) -> Option<TokenView> {
    match tok {
        Some(t) => Some(t@),
        None => None,
    }
}

} // verus!
