//! The lexer: one current token and one character of lookahead over a
//! character source.
use vstd::prelude::*;
use vstd::string::StringExecFns;
use crate::chars::{
    is_alnum, is_alpha, is_comment_char, is_digit, is_number_char, is_space,
    lemma_run_end, lemma_run_end_is, peek, run_end, CharClass, NUL,
};
use crate::error::SyntaxError;
use crate::number::{check_float_literal, is_float_literal};
use crate::source::CharSource;
use crate::text::string_of;
use crate::token::{token_option_view, Token, TokenView};

verus! {

/// What lexing a text yields.
pub struct Lexed {
    /// The token at the head of the text; `None` where the text starts with
    /// a run of number characters that is not a number literal.
    pub token: Option<TokenView>,
    /// The text after the token's last character.
    pub rest: Seq<char>,
}

/// The token that a word stands for.
pub open spec fn word_token(word: Seq<char>) -> TokenView {
    if word == "def"@ {
        TokenView::Def
    } else if word == "extern"@ {
        TokenView::Extern
    } else {
        TokenView::Identifier(word)
    }
}

/// The token that a run of number characters stands for, if it is a number.
pub open spec fn number_token(run: Seq<char>) -> Option<TokenView> {
    if is_float_literal(run) {
        Some(TokenView::Number(run))
    } else {
        None
    }
}

/// The first token of `text` and what follows it. White space and comments
/// (from `#` to the end of the line) before the token are passed over.
pub open spec fn lex(text: Seq<char>) -> Lexed
    decreases text.len(),
{
    let c = peek(text);
    if is_space(c) {
        lex(text.skip(1))
    } else if c == '#' {
        let end = run_end(text, 1, CharClass::CommentChar);
        proof {
            lemma_run_end(text, 1, CharClass::CommentChar);
        }
        lex(text.skip(end))
    } else if is_alpha(c) {
        let end = run_end(text, 1, CharClass::Alnum);
        Lexed { token: Some(word_token(text.take(end))), rest: text.skip(end) }
    } else if is_digit(c) || c == '.' {
        let end = run_end(text, 1, CharClass::NumberChar);
        Lexed { token: number_token(text.take(end)), rest: text.skip(end) }
    } else if c == NUL {
        Lexed { token: Some(TokenView::Eof), rest: text }
    } else {
        Lexed { token: Some(TokenView::Char(c)), rest: text.skip(1) }
    }
}

/// The state of a lexer as the parser sees it.
pub struct LexState {
    /// The current token.
    pub cur: TokenView,
    /// The input that has not been made into a token yet.
    pub rest: Seq<char>,
}

/// A streaming tokenizer.
pub struct Lexer {
    /// The current token.
    pub cur_tok: Token,
    /// The lookahead: the first character that belongs to no token yet, or
    /// the sentinel at the end of the input.
    pub last_char: char,
    /// Where the characters come from.
    pub source: CharSource,
}

impl View for Lexer {
    type V = LexState;

    open spec fn view(&self) -> LexState {
        LexState { cur: self.cur_tok@, rest: self.remaining() }
    }
}

impl Lexer {
    /// The input that has not been made into a token yet: the lookahead and
    /// what the source still holds. Once the lookahead is the sentinel
    /// nothing remains.
    pub open spec fn remaining(&self) -> Seq<char> {
        if self.last_char == NUL {
            Seq::empty()
        } else {
            seq![self.last_char] + self.source.unread()
        }
    }

    /// A lexer over `source`, with the lookahead primed and no token read yet.
    pub fn new(source: CharSource) -> (lexer: Lexer)
        ensures
            lexer.cur_tok@ == TokenView::Eof,
            lexer.remaining() == source.unread(),
            lexer.last_char == peek(source.unread()),
    {
        let mut source = source;
        let ghost text = source.unread();
        proof {
            source.lemma_unread_has_no_nul();
        }
        let c = source.next_byte();
        let lexer = Lexer { cur_tok: Token::Eof, last_char: c, source };
        assert(lexer.remaining() =~= text);
        lexer
    }

    /// Moves the lookahead one character on.
    fn get_char(&mut self)
        requires
            old(self).last_char != NUL,
        ensures
            final(self).remaining() == old(self).remaining().skip(1),
            final(self).last_char == peek(final(self).remaining()),
            final(self).cur_tok == old(self).cur_tok,
    {
        proof {
            self.source.lemma_unread_has_no_nul();
        }
        let ghost before = self.remaining();
        self.last_char = self.source.next_byte();
        assert(self.remaining() =~= before.skip(1));
    }

    /// Reads the next token off the input.
    pub fn get_tok(&mut self) -> (tok: Option<Token>)
        ensures
            token_option_view(tok) == lex(old(self).remaining()).token,
            final(self).remaining() == lex(old(self).remaining()).rest,
            final(self).last_char == peek(final(self).remaining()),
            final(self).cur_tok == old(self).cur_tok,
        decreases old(self).remaining().len(),
    {
        while is_space(self.last_char)
            invariant
                lex(self.remaining()) == lex(old(self).remaining()),
                self.remaining().len() <= old(self).remaining().len(),
                self.cur_tok == old(self).cur_tok,
            decreases self.remaining().len(),
        {
            self.get_char();
        }
        let ghost text = self.remaining();
        let first = self.last_char;
        if is_alpha(first) {
            let mut word: Vec<char> = Vec::new();
            word.push(first);
            self.get_char();
            while is_alnum(self.last_char)
                invariant
                    1 <= word.len() <= text.len(),
                    word@ == text.take(word.len() as int),
                    self.remaining() == text.skip(word.len() as int),
                    self.last_char == peek(self.remaining()),
                    forall|i: int| 1 <= i < word.len() ==> CharClass::Alnum.has(#[trigger] text[i]),
                    self.cur_tok == old(self).cur_tok,
                decreases self.remaining().len(),
            {
                word.push(self.last_char);
                self.get_char();
                assert(text.skip(word.len() - 1).skip(1) =~= text.skip(word.len() as int));
                assert(text.take(word.len() as int) =~= text.take(word.len() - 1).push(
                    text[word.len() - 1],
                ));
            }
            proof {
                lemma_run_end_is(text, 1, word.len() as int, CharClass::Alnum);
            }
            let name = string_of(&word);
            if name == String::from_str("def") {
                Some(Token::Def)
            } else if name == String::from_str("extern") {
                Some(Token::Extern)
            } else {
                Some(Token::Identifier(name))
            }
        } else if is_digit(first) || first == '.' {
            let mut run: Vec<char> = Vec::new();
            run.push(first);
            self.get_char();
            while is_number_char(self.last_char)
                invariant
                    1 <= run.len() <= text.len(),
                    run@ == text.take(run.len() as int),
                    self.remaining() == text.skip(run.len() as int),
                    self.last_char == peek(self.remaining()),
                    forall|i: int|
                        1 <= i < run.len() ==> CharClass::NumberChar.has(#[trigger] text[i]),
                    self.cur_tok == old(self).cur_tok,
                decreases self.remaining().len(),
            {
                run.push(self.last_char);
                self.get_char();
                assert(text.skip(run.len() - 1).skip(1) =~= text.skip(run.len() as int));
                assert(text.take(run.len() as int) =~= text.take(run.len() - 1).push(
                    text[run.len() - 1],
                ));
            }
            proof {
                lemma_run_end_is(text, 1, run.len() as int, CharClass::NumberChar);
            }
            if check_float_literal(&run) {
                Some(Token::Number(string_of(&run)))
            } else {
                None
            }
        } else if first == '#' {
            let ghost mut n: int = 1;
            self.get_char();
            while is_comment_char(self.last_char)
                invariant
                    1 <= n <= text.len(),
                    self.remaining() == text.skip(n),
                    self.last_char == peek(self.remaining()),
                    forall|i: int| 1 <= i < n ==> CharClass::CommentChar.has(#[trigger] text[i]),
                    self.cur_tok == old(self).cur_tok,
                decreases self.remaining().len(),
            {
                self.get_char();
                proof {
                    assert(text.skip(n).skip(1) =~= text.skip(n + 1));
                    n = n + 1;
                }
            }
            proof {
                lemma_run_end_is(text, 1, n, CharClass::CommentChar);
            }
            self.get_tok()
        } else if first == NUL {
            Some(Token::Eof)
        } else {
            self.get_char();
            Some(Token::Char(first))
        }
    }

    /// Advances to the next token: on success it becomes the current token.
    /// Where the input starts with a run of number characters that is not a
    /// number literal, the run is consumed, the current token stays, and the
    /// error is `InvalidNumber`.
    pub fn get_next_tok(&mut self) -> (r: Result<(), SyntaxError>)
        ensures
            final(self)@ == advance(old(self)@).state,
            r == advance(old(self)@).outcome,
            final(self).last_char == peek(final(self).remaining()),
    {
        match self.get_tok() {
            None => Err(SyntaxError::InvalidNumber),
            Some(tok) => {
                self.cur_tok = tok;
                Ok(())
            },
        }
    }
}

/// The outcome of one step of the front end, and the lexer state it leaves.
pub struct Step<T> {
    /// What the step produced, or why it failed.
    pub outcome: Result<T, SyntaxError>,
    /// The lexer state after the step.
    pub state: LexState,
}

/// What `get_next_tok` does to a lexer state.
pub open spec fn advance(s: LexState) -> Step<()> {
    let lexed = lex(s.rest);
    match lexed.token {
        Some(tok) => Step { outcome: Ok(()), state: LexState { cur: tok, rest: lexed.rest } },
        None => Step {
            outcome: Err(SyntaxError::InvalidNumber),
            state: LexState { cur: s.cur, rest: lexed.rest },
        },
    }
}

/// A failed step: error `e` in state `s`.
pub open spec fn failed<T>(e: SyntaxError, s: LexState) -> Step<T> {
    Step { outcome: Err(e), state: s }
}

/// A step that produced `value` and left state `s`.
pub open spec fn done<T>(value: T, s: LexState) -> Step<T> {
    Step { outcome: Ok(value), state: s }
}

/// How much work a lexer state still holds: it bounds the number of tokens
/// that can be read before the end of the input.
pub open spec fn measure(s: LexState) -> nat {
    2 * s.rest.len() + if s.cur is Eof {
        0nat
    } else {
        1nat
    }
}

/// Lexing hands back a suffix of the text, and a token other than the end of
/// the input takes at least one character.
pub proof fn lemma_lex_rest(text: Seq<char>)
    ensures
        lex(text).rest.len() <= text.len(),
        lex(text).rest == text.skip(text.len() - lex(text).rest.len()),
        lex(text).token != Some(TokenView::Eof) ==> lex(text).rest.len() < text.len(),
    decreases text.len(),
{
    let c = peek(text);
    if is_space(c) {
        lemma_lex_rest(text.skip(1));
        let k = text.skip(1).len() - lex(text).rest.len();
        assert(text.skip(1).skip(k) =~= text.skip(1 + k));
    } else if c == '#' {
        let end = run_end(text, 1, CharClass::CommentChar);
        lemma_run_end(text, 1, CharClass::CommentChar);
        lemma_lex_rest(text.skip(end));
        let k = text.skip(end).len() - lex(text).rest.len();
        assert(text.skip(end).skip(k) =~= text.skip(end + k));
    } else if is_alpha(c) {
        lemma_run_end(text, 1, CharClass::Alnum);
    } else if is_digit(c) || c == '.' {
        lemma_run_end(text, 1, CharClass::NumberChar);
    } else if c == NUL {
        assert(text.skip(0) =~= text);
    } else {
    }
}

/// Advancing never adds work, and advancing from a token other than the end
/// of the input removes some.
pub proof fn lemma_advance_shrinks(s: LexState)
    ensures
        measure(advance(s).state) <= measure(s),
        !(s.cur is Eof) ==> measure(advance(s).state) < measure(s),
{
    lemma_lex_rest(s.rest);
}

} // verus!
