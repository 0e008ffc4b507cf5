//! Laws of the lexer, proved of the function `lex` that its contract is
//! stated with.
use vstd::prelude::*;
use crate::chars::{
    char_at, is_alnum, is_alpha, is_comment_char, is_digit, is_number_char, is_space,
    lemma_run_end, lemma_run_end_is, peek, run_end, CharClass, NUL,
};
use crate::lexer::{lemma_lex_rest, lex, word_token, Lexed};
use crate::number::is_float_literal;
use crate::token::TokenView;

verus! {

/// The number of characters that lexing takes off the head of `text`: the
/// white space and comments before the first token, and the token.
pub open spec fn consumed(text: Seq<char>) -> int {
    text.len() - lex(text).rest.len()
}

/// The tokens of `text`, in order, up to and including the end of the input
/// or the first run of number characters that is not a number literal, which
/// shows as `None`.
pub open spec fn tokens(text: Seq<char>) -> Seq<Option<TokenView>>
    decreases text.len(),
{
    let lexed = lex(text);
    if lexed.token is None || lexed.token == Some(TokenView::Eof) {
        seq![lexed.token]
    } else {
        proof {
            lemma_lex_rest(text);
        }
        seq![lexed.token] + tokens(lexed.rest)
    }
}

/// The length of what stands first in `text`, seen from between two tokens:
/// a white space character, a comment with the end of its line, or a token.
/// It is 0 where nothing more can be told apart: at the end of the input, at
/// a comment that runs to the end of the input, and at an invalid number.
pub open spec fn item_len(text: Seq<char>) -> int {
    let c = peek(text);
    if is_space(c) {
        1
    } else if c == '#' {
        let end = run_end(text, 1, CharClass::CommentChar);
        if is_space(char_at(text, end)) {
            end + 1
        } else {
            0
        }
    } else if lex(text).token is None || lex(text).token == Some(TokenView::Eof) {
        0
    } else {
        consumed(text)
    }
}

/// Whether index `k` of `text` lies between two tokens: at the start, or
/// right after a token, a white space character or a comment line that the
/// lexer reads on its way. An index inside a token or inside a comment does
/// not.
pub open spec fn between_tokens(text: Seq<char>, k: int) -> bool
    decreases text.len(),
{
    k == 0 || ({
        let n = item_len(text);
        0 < n <= k && n <= text.len() && between_tokens(text.skip(n), k - n)
    })
}

/// Whether every character of `text` is white space.
pub open spec fn all_space(text: Seq<char>) -> bool {
    forall|i: int| 0 <= i < text.len() ==> is_space(#[trigger] text[i])
}

/// Whether every character of `text` may stand inside a comment.
pub open spec fn all_comment_chars(text: Seq<char>) -> bool {
    forall|i: int| 0 <= i < text.len() ==> is_comment_char(#[trigger] text[i])
}

/// A run in `a` ends at the same place in any text that agrees with `a` up
/// to that place and does not continue the run there.
proof fn lemma_run_end_prefix(a: Seq<char>, b: Seq<char>, from: int, class: CharClass)
    requires
        0 <= from <= a.len(),
        run_end(a, from, class) <= b.len(),
        b.take(run_end(a, from, class)) == a.take(run_end(a, from, class)),
        !class.has(char_at(b, run_end(a, from, class))),
    ensures
        run_end(b, from, class) == run_end(a, from, class),
{
    let end = run_end(a, from, class);
    lemma_run_end(a, from, class);
    assert forall|i: int| from <= i < end implies class.has(#[trigger] b[i]) by {
        assert(b[i] == b.take(end)[i]);
        assert(a[i] == a.take(end)[i]);
    }
    lemma_run_end_is(b, from, end, class);
}

/// What lexing makes of a text depends only on the characters it takes and
/// on the one after them: a text `b` that starts as `a` does, for as much as
/// lexing takes of `a`, and then goes on with the same character, or with
/// the end of the input, or, after a token, with any character that cannot
/// continue a token, gives the same token and is taken as far.
pub proof fn lemma_lex_prefix(a: Seq<char>, b: Seq<char>)
    requires
        consumed(a) <= b.len(),
        b.take(consumed(a)) == a.take(consumed(a)),
        ({
            let next = char_at(b, consumed(a));
            ||| next == char_at(a, consumed(a))
            ||| next == NUL
            ||| !is_number_char(next) && lex(a).token != Some(TokenView::Eof)
        }),
    ensures
        lex(b).token == lex(a).token,
        lex(b).rest == b.skip(consumed(a)),
    decreases a.len(),
{
    let n = consumed(a);
    let c = peek(a);
    lemma_lex_rest(a);
    if is_space(c) {
        lemma_lex_rest(a.skip(1));
        assert(b[0] == b.take(n)[0]);
        assert(a[0] == a.take(n)[0]);
        assert(b.skip(1).take(n - 1) =~= b.take(n).skip(1));
        assert(a.skip(1).take(n - 1) =~= a.take(n).skip(1));
        lemma_lex_prefix(a.skip(1), b.skip(1));
        assert(b.skip(1).skip(n - 1) =~= b.skip(n));
    } else if c == '#' {
        let end = run_end(a, 1, CharClass::CommentChar);
        lemma_run_end(a, 1, CharClass::CommentChar);
        lemma_lex_rest(a.skip(end));
        assert(b[0] == b.take(n)[0]);
        assert(a[0] == a.take(n)[0]);
        assert(b.take(end) =~= b.take(n).take(end));
        assert(a.take(end) =~= a.take(n).take(end));
        if end < n {
            assert(b[end] == b.take(n)[end]);
            assert(a[end] == a.take(n)[end]);
        }
        lemma_run_end_prefix(a, b, 1, CharClass::CommentChar);
        assert(b.skip(end).take(n - end) =~= b.take(n).skip(end));
        assert(a.skip(end).take(n - end) =~= a.take(n).skip(end));
        lemma_lex_prefix(a.skip(end), b.skip(end));
        assert(b.skip(end).skip(n - end) =~= b.skip(n));
    } else if is_alpha(c) {
        lemma_run_end(a, 1, CharClass::Alnum);
        assert(b[0] == b.take(n)[0]);
        assert(a[0] == a.take(n)[0]);
        lemma_run_end_prefix(a, b, 1, CharClass::Alnum);
    } else if is_digit(c) || c == '.' {
        lemma_run_end(a, 1, CharClass::NumberChar);
        assert(b[0] == b.take(n)[0]);
        assert(a[0] == a.take(n)[0]);
        lemma_run_end_prefix(a, b, 1, CharClass::NumberChar);
    } else if c == NUL {
        assert(b.skip(0) =~= b);
    } else {
        assert(b[0] == b.take(n)[0]);
        assert(a[0] == a.take(n)[0]);
    }
}

/// Lookahead: lexing takes a token's characters and no more. What is left
/// starts at the first character after the token, and what was taken, put
/// before the lexer by itself, gives the same token with nothing left.
pub proof fn lemma_lookahead(text: Seq<char>)
    ensures
        0 <= consumed(text) <= text.len(),
        lex(text).rest == text.skip(consumed(text)),
        peek(lex(text).rest) == char_at(text, consumed(text)),
        lex(text.take(consumed(text))) == (Lexed {
            token: lex(text).token,
            rest: Seq::empty(),
        }),
{
    lemma_lex_rest(text);
    let n = consumed(text);
    let taken = text.take(n);
    assert(taken.take(n) =~= text.take(n));
    lemma_lex_prefix(text, taken);
    assert(taken.skip(n) =~= Seq::<char>::empty());
}

/// White space before a text does not change what it lexes to.
pub proof fn lemma_lex_after_space(space: Seq<char>, text: Seq<char>)
    requires
        all_space(space),
    ensures
        lex(space + text) == lex(text),
    decreases space.len(),
{
    if space.len() == 0 {
        assert(space + text =~= text);
    } else {
        assert((space + text)[0] == space[0]);
        assert((space + text).skip(1) =~= space.skip(1) + text);
        assert forall|i: int| 0 <= i < space.skip(1).len() implies is_space(
            #[trigger] space.skip(1)[i],
        ) by {
            assert(space.skip(1)[i] == space[i + 1]);
        }
        lemma_lex_after_space(space.skip(1), text);
    }
}

/// Texts that lex alike, and are alike after their first token, have the
/// same tokens.
proof fn lemma_tokens_step(a: Seq<char>, b: Seq<char>)
    requires
        lex(a).token == lex(b).token,
        lex(a).token is Some && lex(a).token != Some(TokenView::Eof) ==> tokens(lex(a).rest)
            == tokens(lex(b).rest),
    ensures
        tokens(a) == tokens(b),
{
}

/// An index between tokens lies within the text.
pub proof fn lemma_between_tokens_bounds(text: Seq<char>, k: int)
    requires
        between_tokens(text, k),
    ensures
        0 <= k <= text.len(),
    decreases text.len(),
{
    if k != 0 {
        lemma_between_tokens_bounds(text.skip(item_len(text)), k - item_len(text));
    }
}

/// Between two tokens, one stretch of text can stand for another, if the
/// two lex alike before what follows and the new one cannot continue the
/// token before it.
proof fn lemma_splice(p: Seq<char>, x: Seq<char>, y: Seq<char>, q: Seq<char>)
    requires
        between_tokens(p + x + q, p.len() as int),
        !is_number_char(peek(y + q)),
        tokens(x + q) == tokens(y + q),
    ensures
        tokens(p + x + q) == tokens(p + y + q),
    decreases p.len(),
{
    let a = p + x + q;
    let b = p + y + q;
    if p.len() == 0 {
        assert(a =~= x + q);
        assert(b =~= y + q);
    } else {
        let n = item_len(a);
        let c = peek(a);
        assert(a.take(n) =~= p.take(n));
        assert(b.take(n) =~= p.take(n));
        assert(a.skip(n) =~= p.skip(n) + x + q);
        assert(b.skip(n) =~= p.skip(n) + y + q);
        lemma_splice(p.skip(n), x, y, q);
        assert(a[0] == p[0] && b[0] == p[0]);
        lemma_lex_rest(a);
        lemma_lex_rest(b);
        if is_space(c) {
            lemma_tokens_step(a, a.skip(1));
            lemma_tokens_step(b, b.skip(1));
        } else if c == '#' {
            let end = run_end(a, 1, CharClass::CommentChar);
            lemma_run_end(a, 1, CharClass::CommentChar);
            assert(a.take(end) =~= p.take(end));
            assert(b.take(end) =~= p.take(end));
            assert(a[end] == p[end] && b[end] == p[end]);
            lemma_run_end_prefix(a, b, 1, CharClass::CommentChar);
            assert(a.skip(end).skip(1) =~= a.skip(n));
            assert(b.skip(end).skip(1) =~= b.skip(n));
            assert(peek(a.skip(end)) == a[end] && peek(b.skip(end)) == b[end]);
            assert(lex(a) == lex(a.skip(end)));
            assert(lex(a.skip(end)) == lex(a.skip(end).skip(1)));
            assert(lex(b) == lex(b.skip(end)));
            assert(lex(b.skip(end)) == lex(b.skip(end).skip(1)));
            lemma_tokens_step(a, a.skip(n));
            lemma_tokens_step(b, b.skip(n));
        } else {
            if n < p.len() {
                assert(a[n] == p[n] && b[n] == p[n]);
            } else {
                assert(b.skip(n) =~= y + q);
                assert(char_at(b, n) == peek(b.skip(n)));
            }
            lemma_lex_prefix(a, b);
            lemma_tokens_step(a, b);
        }
    }
}

/// `text` with `space` put in at index `at`.
pub open spec fn insert(text: Seq<char>, at: int, space: Seq<char>) -> Seq<char> {
    text.take(at) + space + text.skip(at)
}

/// White space put between two tokens leaves the sequence of tokens as it
/// was.
pub proof fn lemma_whitespace_insertion(text: Seq<char>, at: int, space: Seq<char>)
    requires
        between_tokens(text, at),
        all_space(space),
    ensures
        tokens(insert(text, at, space)) == tokens(text),
{
    lemma_between_tokens_bounds(text, at);
    let p = text.take(at);
    let q = text.skip(at);
    assert(p + Seq::<char>::empty() + q =~= text);
    if space.len() == 0 {
        assert(p + space + q =~= text);
    } else {
        assert((space + q)[0] == space[0]);
        lemma_lex_after_space(space, q);
        assert(Seq::<char>::empty() + q =~= q);
        lemma_tokens_step(q, space + q);
        lemma_splice(p, Seq::empty(), space, q);
    }
}

/// One insertion of white space: where, and what.
pub struct Insertion {
    pub at: int,
    pub space: Seq<char>,
}

/// `text` after the insertions `edits`, made one after another, each index
/// counting in the text that the insertions before it have made.
pub open spec fn insert_all(text: Seq<char>, edits: Seq<Insertion>) -> Seq<char>
    decreases edits.len(),
{
    if edits.len() == 0 {
        text
    } else {
        insert_all(insert(text, edits[0].at, edits[0].space), edits.skip(1))
    }
}

/// Whether each of the insertions `edits` puts white space between two
/// tokens of the text as it stands when the insertion is made.
pub open spec fn insertions_between_tokens(text: Seq<char>, edits: Seq<Insertion>) -> bool
    decreases edits.len(),
{
    edits.len() == 0 || {
        &&& between_tokens(text, edits[0].at)
        &&& all_space(edits[0].space)
        &&& insertions_between_tokens(insert(text, edits[0].at, edits[0].space), edits.skip(1))
    }
}

/// Whitespace transparency: a text made from another by putting white space
/// between its tokens, in any number of places, has the same sequence of
/// tokens.
pub proof fn lemma_whitespace_transparent(text: Seq<char>, edits: Seq<Insertion>)
    requires
        insertions_between_tokens(text, edits),
    ensures
        tokens(insert_all(text, edits)) == tokens(text),
    decreases edits.len(),
{
    if edits.len() > 0 {
        lemma_whitespace_insertion(text, edits[0].at, edits[0].space);
        lemma_whitespace_transparent(insert(text, edits[0].at, edits[0].space), edits.skip(1));
    }
}

/// Comment equivalence: a comment, from its `#` to the end of its line,
/// can be replaced by the newline alone, and the sequence of tokens stays as
/// it was. The `#` stands between two tokens, so that it starts a comment.
pub proof fn lemma_comment_equivalent(before: Seq<char>, body: Seq<char>, after: Seq<char>)
    requires
        between_tokens(
            before + (seq!['#'] + body + seq!['\n']) + after,
            before.len() as int,
        ),
        all_comment_chars(body),
    ensures
        tokens(before + (seq!['#'] + body + seq!['\n']) + after) == tokens(
            before + seq!['\n'] + after,
        ),
{
    let x = seq!['#'] + body + seq!['\n'];
    let y = seq!['\n'];
    let line = x + after;
    let end = (1 + body.len()) as int;
    assert forall|i: int| 1 <= i < end implies CharClass::CommentChar.has(#[trigger] line[i]) by {
        assert(line[i] == body[i - 1]);
    }
    assert(line[end] == '\n');
    lemma_run_end_is(line, 1, end, CharClass::CommentChar);
    assert(line.skip(end) =~= y + after);
    assert(lex(line) == lex(y + after));
    lemma_tokens_step(line, y + after);
    assert((y + after)[0] == '\n');
    lemma_splice(before, x, y, after);
}

/// Every character of a number literal may stand in a number, and the first
/// is a digit or a dot.
pub proof fn lemma_float_literal_chars(n: Seq<char>)
    requires
        is_float_literal(n),
    ensures
        n.len() >= 1,
        is_digit(n[0]) || n[0] == '.',
        forall|i: int| 0 <= i < n.len() ==> is_number_char(#[trigger] n[i]),
{
    let int_end = run_end(n, 0, CharClass::Digit);
    lemma_run_end(n, 0, CharClass::Digit);
    let has_dot = char_at(n, int_end) == '.';
    let frac_end = if has_dot {
        run_end(n, int_end + 1, CharClass::Digit)
    } else {
        int_end
    };
    if has_dot {
        lemma_run_end(n, int_end + 1, CharClass::Digit);
    }
    let has_exp = char_at(n, frac_end) == 'e' || char_at(n, frac_end) == 'E';
    if has_exp {
        lemma_run_end(n, frac_end + 1, CharClass::Digit);
    }
    assert forall|i: int| 0 <= i < n.len() implies is_number_char(#[trigger] n[i]) by {
        if i < int_end {
            assert(CharClass::Digit.has(n[i]));
        } else if has_dot && i == int_end {
        } else if i < frac_end {
            assert(CharClass::Digit.has(n[i]));
        } else if has_exp && i == frac_end {
        } else {
            assert(CharClass::Digit.has(n[i]));
        }
    }
    if int_end > 0 {
        assert(CharClass::Digit.has(n[0]));
    }
}

/// A number literal lexes as itself: the text `n`, followed by a character
/// that cannot continue a number, gives the token `Number(n)` and leaves
/// what follows.
pub proof fn lemma_lex_number(n: Seq<char>, tail: Seq<char>)
    requires
        is_float_literal(n),
        !is_number_char(peek(tail)),
    ensures
        lex(n + tail) == (Lexed { token: Some(TokenView::Number(n)), rest: tail }),
{
    lemma_float_literal_chars(n);
    let text = n + tail;
    let end = n.len() as int;
    assert(text[0] == n[0]);
    assert forall|i: int| 1 <= i < end implies CharClass::NumberChar.has(#[trigger] text[i]) by {
        assert(text[i] == n[i]);
    }
    if tail.len() > 0 {
        assert(text[end] == tail[0]);
    }
    lemma_run_end_is(text, 1, end, CharClass::NumberChar);
    assert(text.take(end) =~= n);
    assert(text.skip(end) =~= tail);
}

/// A name lexes as itself: a letter followed by letters and digits,
/// followed by a character that is neither, gives the keyword that the word
/// is, or else the identifier of that name, and leaves what follows.
pub proof fn lemma_lex_word(name: Seq<char>, tail: Seq<char>)
    requires
        name.len() >= 1,
        is_alpha(name[0]),
        forall|i: int| 0 <= i < name.len() ==> is_alnum(#[trigger] name[i]),
        !is_alnum(peek(tail)),
    ensures
        lex(name + tail) == (Lexed { token: Some(word_token(name)), rest: tail }),
{
    let text = name + tail;
    let end = name.len() as int;
    assert(text[0] == name[0]);
    assert forall|i: int| 1 <= i < end implies CharClass::Alnum.has(#[trigger] text[i]) by {
        assert(text[i] == name[i]);
    }
    if tail.len() > 0 {
        assert(text[end] == tail[0]);
    }
    lemma_run_end_is(text, 1, end, CharClass::Alnum);
    assert(text.take(end) =~= name);
    assert(text.skip(end) =~= tail);
}

/// After the end of the input comes the end of the input: where lexing
/// gives `Eof`, what is left starts with the sentinel, and lexes to `Eof`
/// again with the same left.
pub proof fn lemma_eof_repeats(text: Seq<char>)
    requires
        lex(text).token == Some(TokenView::Eof),
    ensures
        peek(lex(text).rest) == NUL,
        lex(lex(text).rest) == lex(text),
    decreases text.len(),
{
    let c = peek(text);
    if is_space(c) {
        lemma_eof_repeats(text.skip(1));
    } else if c == '#' {
        lemma_run_end(text, 1, CharClass::CommentChar);
        lemma_eof_repeats(text.skip(run_end(text, 1, CharClass::CommentChar)));
    }
}

} // verus!
