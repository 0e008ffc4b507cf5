//! The character source: a cursor over the bytes of the input.
use vstd::prelude::*;
use crate::chars::{bump, peek, NUL};

verus! {

/// The characters that a byte input stands for: one character per byte, up to
/// the first NUL byte, which is reserved as the end-of-input sentinel and is
/// never data.
pub open spec fn text_of(bytes: Seq<u8>) -> Seq<char>
    decreases bytes.len(),
{
    if bytes.len() == 0 || bytes[0] == 0 {
        Seq::empty()
    } else {
        seq![bytes[0] as char] + text_of(bytes.skip(1))
    }
}

/// `text_of` never yields the sentinel.
pub proof fn lemma_text_of_has_no_nul(bytes: Seq<u8>)
    ensures
        forall|i: int| 0 <= i < text_of(bytes).len() ==> #[trigger] text_of(bytes)[i] != NUL,
    decreases bytes.len(),
{
    if bytes.len() == 0 || bytes[0] == 0 {
    } else {
        lemma_text_of_has_no_nul(bytes.skip(1));
        let rest = text_of(bytes.skip(1));
        assert forall|i: int| 0 <= i < text_of(bytes).len() implies #[trigger] text_of(bytes)[i]
            != NUL by {
            if i == 0 {
                assert(bytes[0] as char != NUL);
            } else {
                assert(text_of(bytes)[i] == rest[i - 1]);
            }
        }
    }
}

/// A one-way cursor over an input held in memory.
pub struct CharSource {
    bytes: Vec<u8>,
    pos: usize,
}

impl CharSource {
    /// The characters that have not been read yet.
    pub closed spec fn unread(&self) -> Seq<char> {
        if self.pos <= self.bytes.len() {
            text_of(self.bytes@.skip(self.pos as int))
        } else {
            Seq::empty()
        }
    }

    /// The unread characters never hold the sentinel.
    pub proof fn lemma_unread_has_no_nul(&self)
        ensures
            forall|i: int| 0 <= i < self.unread().len() ==> #[trigger] self.unread()[i] != NUL,
    {
        if self.pos <= self.bytes.len() {
            lemma_text_of_has_no_nul(self.bytes@.skip(self.pos as int));
        }
    }

    /// A source positioned at the first byte of `bytes`.
    pub fn new(bytes: Vec<u8>) -> (s: CharSource)
        ensures
            s.unread() == text_of(bytes@),
    {
        assert(bytes@.skip(0) =~= bytes@);
        CharSource { bytes, pos: 0 }
    }

    /// Reads one character. At the end of the input, or at a NUL byte, it
    /// returns the sentinel and stays where it is.
    pub fn next_byte(&mut self) -> (c: char)
        ensures
            c == peek(old(self).unread()),
            final(self).unread() == bump(old(self).unread()),
    {
        if self.pos < self.bytes.len() {
            let b = self.bytes[self.pos];
            if b != 0 {
                proof {
                    let here = self.bytes@.skip(self.pos as int);
                    assert(here.skip(1) =~= self.bytes@.skip(self.pos as int + 1));
                    assert(text_of(here) =~= seq![b as char] + text_of(here.skip(1)));
                    assert(text_of(here).skip(1) =~= text_of(here.skip(1)));
                }
                self.pos = self.pos + 1;
                return b as char;
            }
        }
        NUL
    }
}

} // verus!
