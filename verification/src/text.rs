//! Strings from characters.
use vstd::prelude::*;

verus! {

/// Taken on trust of the standard library: `String::push` appends `ch` to
/// the end of the string, so that the string then holds the characters it
/// held before, followed by `ch`.
pub assume_specification[ String::push ](s: &mut String, ch: char)
    ensures
        final(s)@ == old(s)@.push(ch),
;

/// The string that holds the characters of `text`.
pub fn string_of(text: &Vec<char>) -> (s: String)
    ensures
        s@ == text@,
{
    let mut s = String::new();
    let mut i: usize = 0;
    while i < text.len()
        invariant
            i <= text.len(),
            s@ == text@.take(i as int),
        decreases text.len() - i,
    {
        s.push(text[i]);
        i = i + 1;
        assert(text@.take(i as int) =~= text@.take(i - 1).push(text@[i - 1]));
    }
    assert(text@.take(text.len() as int) =~= text@);
    s
}

} // verus!
