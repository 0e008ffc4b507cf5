//! Character classes of the lexical surface, and the few operations on
//! character sequences that the lexer's contracts are written with.
//!
//! All classes are defined over ASCII: a character outside ASCII belongs to
//! none of them and therefore lexes as a single-character token.
use vstd::prelude::*;

verus! {

/// The sentinel that stands for the end of the input.
pub const NUL: char = '\0';

/// Space, tab, newline, carriage return, form feed, vertical tab.
pub open spec fn spec_is_space(c: char) -> bool {
    c == ' ' || c == '\t' || c == '\n' || c == '\r' || c == '\x0c' || c == '\x0b'
}

/// `A`-`Z` or `a`-`z`.
pub open spec fn spec_is_alpha(c: char) -> bool {
    ('a' <= c && c <= 'z') || ('A' <= c && c <= 'Z')
}

/// `0`-`9`.
pub open spec fn spec_is_digit(c: char) -> bool {
    '0' <= c && c <= '9'
}

/// A letter or a digit.
pub open spec fn spec_is_alnum(c: char) -> bool {
    spec_is_alpha(c) || spec_is_digit(c)
}

/// A character that may continue a number literal: a letter, a digit or `.`.
pub open spec fn spec_is_number_char(c: char) -> bool {
    spec_is_alnum(c) || c == '.'
}

/// A character that may stand inside a comment: anything but a newline, a
/// carriage return or the end-of-input sentinel.
pub open spec fn spec_is_comment_char(c: char) -> bool {
    c != NUL && c != '\n' && c != '\r'
}

/// A character with the Unicode property `White_Space`.
pub open spec fn spec_is_whitespace(c: char) -> bool {
    ||| c == ' '
    ||| ('\x09' <= c && c <= '\x0d')
    ||| c == '\u{85}'
    ||| c == '\u{a0}'
    ||| c == '\u{1680}'
    ||| ('\u{2000}' <= c && c <= '\u{200a}')
    ||| c == '\u{2028}'
    ||| c == '\u{2029}'
    ||| c == '\u{202f}'
    ||| c == '\u{205f}'
    ||| c == '\u{3000}'
}

#[verifier::when_used_as_spec(spec_is_whitespace)]
pub fn is_whitespace(c: char) -> (b: bool)
    ensures
        b == spec_is_whitespace(c),
{
    c == ' ' || ('\x09' <= c && c <= '\x0d') || c == '\u{85}' || c == '\u{a0}' || c == '\u{1680}' || (
    '\u{2000}' <= c && c <= '\u{200a}') || c == '\u{2028}' || c == '\u{2029}' || c == '\u{202f}' || c
        == '\u{205f}' || c == '\u{3000}'
}

#[verifier::when_used_as_spec(spec_is_space)]
pub fn is_space(c: char) -> (b: bool)
    ensures
        b == spec_is_space(c),
{
    c == ' ' || c == '\t' || c == '\n' || c == '\r' || c == '\x0c' || c == '\x0b'
}

#[verifier::when_used_as_spec(spec_is_alpha)]
pub fn is_alpha(c: char) -> (b: bool)
    ensures
        b == spec_is_alpha(c),
{
    ('a' <= c && c <= 'z') || ('A' <= c && c <= 'Z')
}

#[verifier::when_used_as_spec(spec_is_digit)]
pub fn is_digit(c: char) -> (b: bool)
    ensures
        b == spec_is_digit(c),
{
    '0' <= c && c <= '9'
}

#[verifier::when_used_as_spec(spec_is_alnum)]
pub fn is_alnum(c: char) -> (b: bool)
    ensures
        b == spec_is_alnum(c),
{
    is_alpha(c) || is_digit(c)
}

#[verifier::when_used_as_spec(spec_is_number_char)]
pub fn is_number_char(c: char) -> (b: bool)
    ensures
        b == spec_is_number_char(c),
{
    is_alnum(c) || c == '.'
}

#[verifier::when_used_as_spec(spec_is_comment_char)]
pub fn is_comment_char(c: char) -> (b: bool)
    ensures
        b == spec_is_comment_char(c),
{
    c != NUL && c != '\n' && c != '\r'
}

/// The character at index `i` of `text`, or the sentinel past its end.
pub open spec fn char_at(text: Seq<char>, i: int) -> char {
    if 0 <= i < text.len() {
        text[i]
    } else {
        NUL
    }
}

/// The first character of `text`, or the sentinel if there is none.
pub open spec fn peek(text: Seq<char>) -> char {
    char_at(text, 0)
}

/// `text` without its first character; the empty text stays empty.
pub open spec fn bump(text: Seq<char>) -> Seq<char> {
    if text.len() > 0 {
        text.skip(1)
    } else {
        text
    }
}

/// The classes that a run of characters can be asked for.
#[derive(Clone, Copy, Debug, PartialEq, Eq)]
pub enum CharClass {
    /// `0`-`9`.
    Digit,
    /// A letter or a digit.
    Alnum,
    /// A letter, a digit or `.`.
    NumberChar,
    /// Anything but a newline, a carriage return or the sentinel.
    CommentChar,
    /// A character with the Unicode property `White_Space`.
    Whitespace,
}

impl CharClass {
    /// Whether `c` belongs to the class.
    pub open spec fn spec_has(self, c: char) -> bool {
        match self {
            CharClass::Digit => spec_is_digit(c),
            CharClass::Alnum => spec_is_alnum(c),
            CharClass::NumberChar => spec_is_number_char(c),
            CharClass::CommentChar => spec_is_comment_char(c),
            CharClass::Whitespace => spec_is_whitespace(c),
        }
    }

    #[verifier::when_used_as_spec(spec_has)]
    pub fn has(self, c: char) -> (b: bool)
        ensures
            b == self.spec_has(c),
    {
        match self {
            CharClass::Digit => is_digit(c),
            CharClass::Alnum => is_alnum(c),
            CharClass::NumberChar => is_number_char(c),
            CharClass::CommentChar => is_comment_char(c),
            CharClass::Whitespace => is_whitespace(c),
        }
    }
}

/// The end of the longest run of characters of class `class` that starts at
/// index `from`: the first index at or after `from` whose character is not in
/// the class, or the length of `text`.
pub open spec fn run_end(text: Seq<char>, from: int, class: CharClass) -> int
    decreases text.len() - from,
{
    if 0 <= from < text.len() && class.has(text[from]) {
        run_end(text, from + 1, class)
    } else {
        from
    }
}

/// `run_end` lies between `from` and the end of the text, everything before
/// it is in the class, and the character at it is not.
pub proof fn lemma_run_end(text: Seq<char>, from: int, class: CharClass)
    requires
        0 <= from <= text.len(),
    ensures
        from <= run_end(text, from, class) <= text.len(),
        forall|i: int| from <= i < run_end(text, from, class) ==> class.has(#[trigger] text[i]),
        !class.has(char_at(text, run_end(text, from, class))),
    decreases text.len() - from,
{
    if from < text.len() && class.has(text[from]) {
        lemma_run_end(text, from + 1, class);
    }
}

/// A run that reaches `to` with every character in the class, and stops
/// there, ends at `to`.
pub proof fn lemma_run_end_is(text: Seq<char>, from: int, to: int, class: CharClass)
    requires
        0 <= from <= to <= text.len(),
        forall|i: int| from <= i < to ==> class.has(#[trigger] text[i]),
        !class.has(char_at(text, to)),
    ensures
        run_end(text, from, class) == to,
    decreases to - from,
{
    if from < to {
        lemma_run_end_is(text, from + 1, to, class);
    }
}

/// Computes `run_end` on a text held in a vector.
pub fn find_run_end(text: &Vec<char>, from: usize, class: CharClass) -> (end: usize)
    requires
        from <= text.len(),
    ensures
        end == run_end(text@, from as int, class),
        from <= end <= text.len(),
{
    let mut i: usize = from;
    while i < text.len() && class.has(text[i])
        invariant
            from <= i <= text.len(),
            forall|k: int| from <= k < i ==> class.has(#[trigger] text@[k]),
        decreases text.len() - i,
    {
        i = i + 1;
    }
    proof {
        lemma_run_end_is(text@, from as int, i as int, class);
    }
    i
}

} // verus!
