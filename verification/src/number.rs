//! The grammar of number literals.
//!
//! The lexer hands out a maximal run of letters, digits and dots that starts
//! with a digit or a dot. Such a run is a number when it reads as a decimal
//! floating-point literal: digits with at most one dot among them, at least
//! one digit in all, and optionally an exponent, `e` or `E` followed by at
//! least one digit. (A run cannot hold a sign, so none is considered.)
use vstd::prelude::*;
use crate::chars::{char_at, find_run_end, run_end, CharClass};

verus! {

/// Whether `text` is a decimal floating-point literal.
pub open spec fn is_float_literal(text: Seq<char>) -> bool {
    let int_end = run_end(text, 0, CharClass::Digit);
    let has_dot = char_at(text, int_end) == '.';
    let frac_end = if has_dot {
        run_end(text, int_end + 1, CharClass::Digit)
    } else {
        int_end
    };
    let digits = if has_dot {
        frac_end - 1
    } else {
        int_end
    };
    let has_exp = char_at(text, frac_end) == 'e' || char_at(text, frac_end) == 'E';
    let end = if has_exp {
        run_end(text, frac_end + 1, CharClass::Digit)
    } else {
        frac_end
    };
    &&& digits >= 1
    &&& has_exp ==> end > frac_end + 1
    &&& end == text.len()
}

/// Decides whether `text` is a decimal floating-point literal.
pub fn check_float_literal(text: &Vec<char>) -> (ok: bool)
    ensures
        ok == is_float_literal(text@),
{
    let len = text.len();
    let int_end = find_run_end(text, 0, CharClass::Digit);
    let has_dot = int_end < len && text[int_end] == '.';
    let frac_end = if has_dot {
        find_run_end(text, int_end + 1, CharClass::Digit)
    } else {
        int_end
    };
    let digits = if has_dot {
        frac_end - 1
    } else {
        int_end
    };
    if digits < 1 {
        return false;
    }
    let has_exp = frac_end < len && (text[frac_end] == 'e' || text[frac_end] == 'E');
    if has_exp {
        let end = find_run_end(text, frac_end + 1, CharClass::Digit);
        end > frac_end + 1 && end == len
    } else {
        frac_end == len
    }
}

/// Whether `text` is a decimal floating-point literal with an optional sign
/// before it.
pub open spec fn is_signed_float_literal(text: Seq<char>) -> bool {
    if char_at(text, 0) == '+' || char_at(text, 0) == '-' {
        is_float_literal(text.skip(1))
    } else {
        is_float_literal(text)
    }
}

/// Decides whether `text` is a decimal floating-point literal with an
/// optional sign before it.
pub fn check_signed_float_literal(text: &Vec<char>) -> (ok: bool)
    ensures
        ok == is_signed_float_literal(text@),
{
    if text.len() > 0 && (text[0] == '+' || text[0] == '-') {
        let mut unsigned: Vec<char> = Vec::new();
        let mut i: usize = 1;
        while i < text.len()
            invariant
                1 <= i <= text.len(),
                unsigned@ == text@.subrange(1, i as int),
            decreases text.len() - i,
        {
            unsigned.push(text[i]);
            i = i + 1;
            assert(text@.subrange(1, i as int) =~= text@.subrange(1, i - 1).push(text@[i - 1]));
        }
        assert(text@.subrange(1, text.len() as int) =~= text@.skip(1));
        check_float_literal(&unsigned)
    } else {
        check_float_literal(text)
    }
}

} // verus!
