//! Three small parsers of arithmetic that read characters directly, without
//! a tokenizer: one that layers sums over products, and two that climb
//! operator precedences, one building a tree and one a fully parenthesised
//! text.
//!
//! Each holds one character of lookahead, `next_char`, over a character
//! source. What they read is stated over the pending text: the lookahead
//! followed by what the source still holds. Reading past the end of the
//! pending text gives the sentinel.
use vstd::prelude::*;
use vstd::string::StringExecFns;
use crate::ast::{Expr, ExprView};
use crate::chars::{
    char_at, is_digit, is_whitespace, lemma_run_end, lemma_run_end_is, peek, run_end, CharClass,
    NUL,
};
use crate::error::SyntaxError;
use crate::text::string_of;
use crate::number::{check_signed_float_literal, is_signed_float_literal};
use crate::source::CharSource;

verus! {

/// The pending text of a parser with lookahead `next_char` over `source`.
pub open spec fn pending(next_char: char, source: CharSource) -> Seq<char> {
    seq![next_char] + source.unread()
}

/// The pending text `p` once its first `k` characters are read. Once all
/// are, the lookahead is the sentinel.
pub open spec fn from(p: Seq<char>, k: int) -> Seq<char> {
    if 0 <= k < p.len() {
        p.skip(k)
    } else {
        seq![NUL]
    }
}

/// The number of characters of `p` that can still be read: its length,
/// less the sentinel in the lookahead.
pub open spec fn work(p: Seq<char>) -> nat {
    if peek(p) == NUL {
        (p.len() - 1) as nat
    } else {
        p.len()
    }
}

/// The pending text after `scan_next`: one character is read, then white
/// space is passed over.
pub open spec fn scan_next(p: Seq<char>) -> Seq<char> {
    from(p, run_end(p, 1, CharClass::Whitespace))
}

/// Where the number at the head of `p` ends: after the lookahead, whatever
/// it is, and the digits that follow it.
pub open spec fn number_end(p: Seq<char>) -> int {
    run_end(p, 1, CharClass::Digit)
}

/// The text of the number at the head of `p`.
pub open spec fn number_text(p: Seq<char>) -> Seq<char> {
    p.take(number_end(p))
}

/// The pending text after `parse_num`: the number is read, then white space
/// is passed over.
pub open spec fn after_number(p: Seq<char>) -> Seq<char> {
    from(p, run_end(p, number_end(p), CharClass::Whitespace))
}

/// Reading one more character of a pending text.
proof fn lemma_from_next(p: Seq<char>, k: int)
    requires
        0 <= k,
        p.len() > 0,
    ensures
        from(from(p, k), 1) == from(p, k + 1),
        peek(from(p, k)) == char_at(p, k),
{
    if k + 1 < p.len() {
        assert(p.skip(k).skip(1) =~= p.skip(k + 1));
    }
}

/// Reading never adds work, and reading a character that is not the
/// sentinel removes some.
pub proof fn lemma_from_work(p: Seq<char>, k: int)
    requires
        p.len() > 0,
        0 <= k,
    ensures
        work(from(p, k)) <= work(p),
        k >= 1 && peek(p) != NUL ==> work(from(p, k)) < work(p),
{
}

/// Moves the lookahead one character on.
fn read_char(next_char: &mut char, source: &mut CharSource)
    ensures
        pending(*final(next_char), *final(source)) == from(
            pending(*old(next_char), *old(source)),
            1,
        ),
        *final(next_char) == peek(pending(*final(next_char), *final(source))),
{
    let ghost before = pending(*next_char, *source);
    *next_char = source.next_byte();
    assert(pending(*next_char, *source) =~= from(before, 1));
}

/// Reads one character, then passes over white space.
fn skip_space(next_char: &mut char, source: &mut CharSource)
    ensures
        pending(*final(next_char), *final(source)) == scan_next(
            pending(*old(next_char), *old(source)),
        ),
        *final(next_char) == peek(pending(*final(next_char), *final(source))),
{
    let ghost p = pending(*next_char, *source);
    let ghost mut k: int = 1;
    read_char(next_char, source);
    while is_whitespace(*next_char)
        invariant
            1 <= k <= p.len(),
            pending(*next_char, *source) == from(p, k),
            *next_char == char_at(p, k),
            forall|i: int| 1 <= i < k ==> CharClass::Whitespace.has(#[trigger] p[i]),
        decreases p.len() - k,
    {
        proof {
            lemma_from_next(p, k);
            lemma_from_next(p, k + 1);
        }
        read_char(next_char, source);
        proof {
            k = k + 1;
        }
    }
    proof {
        lemma_run_end_is(p, 1, k, CharClass::Whitespace);
    }
}

/// Reads the number at the lookahead: the lookahead itself and the digits
/// after it; then passes over white space.
fn read_number(next_char: &mut char, source: &mut CharSource) -> (text: Vec<char>)
    ensures
        text@ == number_text(pending(*old(next_char), *old(source))),
        pending(*final(next_char), *final(source)) == after_number(
            pending(*old(next_char), *old(source)),
        ),
        *final(next_char) == peek(pending(*final(next_char), *final(source))),
{
    let ghost p = pending(*next_char, *source);
    let mut res: Vec<char> = Vec::new();
    res.push(*next_char);
    assert(res@ =~= p.take(1));
    read_char(next_char, source);
    while is_digit(*next_char)
        invariant
            1 <= res.len() <= p.len(),
            res@ == p.take(res.len() as int),
            pending(*next_char, *source) == from(p, res.len() as int),
            *next_char == char_at(p, res.len() as int),
            forall|i: int| 1 <= i < res.len() ==> CharClass::Digit.has(#[trigger] p[i]),
        decreases p.len() - res.len(),
    {
        proof {
            lemma_from_next(p, res.len() as int);
            lemma_from_next(p, res.len() + 1);
        }
        res.push(*next_char);
        read_char(next_char, source);
        assert(res@ =~= p.take(res.len() as int));
    }
    proof {
        lemma_run_end_is(p, 1, res.len() as int, CharClass::Digit);
    }
    let ghost end = res.len() as int;
    let ghost mut k: int = end;
    while is_whitespace(*next_char)
        invariant
            end <= k <= p.len(),
            pending(*next_char, *source) == from(p, k),
            *next_char == char_at(p, k),
            forall|i: int| end <= i < k ==> CharClass::Whitespace.has(#[trigger] p[i]),
        decreases p.len() - k,
    {
        proof {
            lemma_from_next(p, k);
            lemma_from_next(p, k + 1);
        }
        read_char(next_char, source);
        proof {
            k = k + 1;
        }
    }
    proof {
        lemma_run_end_is(p, end, k, CharClass::Whitespace);
    }
    res
}

/// What a step of one of these parsers came to.
pub struct CalcStep<V> {
    /// The value that was read, or why reading stopped.
    pub outcome: Result<V, SyntaxError>,
    /// The pending text after the step.
    pub rest: Seq<char>,
}

/// What a precedence-climbing parser is made of: the strength of each
/// operator, the value of a number, and the value of an operation.
#[verifier::reject_recursive_types(V)]
pub struct Algebra<V> {
    /// The binding strength of a character as an operator; below 0 for a
    /// character that is none.
    pub prec: spec_fn(char) -> int,
    /// The value of a number, from its text.
    pub leaf: spec_fn(Seq<char>) -> Result<V, SyntaxError>,
    /// The value of an operation: operator, left operand, right operand.
    pub node: spec_fn(char, V, V) -> V,
}

/// A primary: a number, or an expression in parentheses.
pub open spec fn parse_primary<V>(alg: Algebra<V>, p: Seq<char>) -> CalcStep<V>
    decreases work(p), 1int,
{
    if peek(p) == '(' {
        proof {
            lemma_scan_next_work(p);
        }
        let inner = parse_primary(alg, scan_next(p));
        if inner.outcome is Err {
            inner
        } else if work(inner.rest) > work(scan_next(p)) {
            // never so: see `lemma_parse_primary_work`
            arbitrary()
        } else {
            let val = parse_biop(alg, 0, inner.outcome->Ok_0, inner.rest);
            if val.outcome is Err {
                val
            } else if peek(val.rest) != ')' {
                CalcStep { outcome: Err(SyntaxError::ExpectedCloseParen), rest: val.rest }
            } else {
                CalcStep { outcome: val.outcome, rest: scan_next(val.rest) }
            }
        }
    } else {
        CalcStep { outcome: (alg.leaf)(number_text(p)), rest: after_number(p) }
    }
}

/// The operators of strength `min_prec` and more that follow the operand
/// `lhs`, each with its right operand. Where the operator after a right
/// operand is stronger, it and its like are read first, into that operand.
/// Reading stops at a character that is weaker than `min_prec` or is no
/// operator at all.
pub open spec fn parse_biop<V>(alg: Algebra<V>, min_prec: int, lhs: V, p: Seq<char>) -> CalcStep<V>
    decreases work(p), 0int,
{
    let op = peek(p);
    let cur_prec = (alg.prec)(op);
    if cur_prec < min_prec || cur_prec < 0 || op == NUL {
        CalcStep { outcome: Ok(lhs), rest: p }
    } else {
        proof {
            lemma_scan_next_work(p);
        }
        let operand = parse_primary(alg, scan_next(p));
        if operand.outcome is Err {
            operand
        } else if work(operand.rest) > work(scan_next(p)) {
            // never so: see `lemma_parse_primary_work`
            arbitrary()
        } else {
            let rhs = if (alg.prec)(peek(operand.rest)) > cur_prec {
                parse_biop(alg, cur_prec + 1, operand.outcome->Ok_0, operand.rest)
            } else {
                operand
            };
            if rhs.outcome is Err {
                rhs
            } else if work(rhs.rest) > work(operand.rest) {
                // never so: see `lemma_parse_biop_work`
                arbitrary()
            } else {
                parse_biop(alg, min_prec, (alg.node)(op, lhs, rhs.outcome->Ok_0), rhs.rest)
            }
        }
    }
}

/// `scan_next` leaves a pending text, with no more work than before, and
/// with less where the lookahead was not the sentinel.
pub proof fn lemma_scan_next_work(p: Seq<char>)
    requires
        p.len() > 0,
    ensures
        scan_next(p).len() > 0,
        work(scan_next(p)) <= work(p),
        peek(p) != NUL ==> work(scan_next(p)) < work(p),
{
    lemma_run_end(p, 1, CharClass::Whitespace);
    lemma_from_work(p, run_end(p, 1, CharClass::Whitespace));
}

/// `parse_num` leaves a pending text, with no more work than before.
pub proof fn lemma_after_number_work(p: Seq<char>)
    requires
        p.len() > 0,
    ensures
        after_number(p).len() > 0,
        work(after_number(p)) <= work(p),
{
    lemma_run_end(p, 1, CharClass::Digit);
    lemma_run_end(p, number_end(p), CharClass::Whitespace);
    lemma_from_work(p, run_end(p, number_end(p), CharClass::Whitespace));
}

/// Reading a primary leaves a pending text, with no more work than before.
pub proof fn lemma_parse_primary_work<V>(alg: Algebra<V>, p: Seq<char>)
    requires
        p.len() > 0,
    ensures
        parse_primary(alg, p).outcome is Ok ==> parse_primary(alg, p).rest.len() > 0 && work(
            parse_primary(alg, p).rest,
        ) <= work(p),
    decreases work(p), 1int,
{
    if peek(p) == '(' {
        lemma_scan_next_work(p);
        lemma_parse_primary_work(alg, scan_next(p));
        let inner = parse_primary(alg, scan_next(p));
        if inner.outcome is Ok {
            lemma_parse_biop_work(alg, 0, inner.outcome->Ok_0, inner.rest);
            let val = parse_biop(alg, 0, inner.outcome->Ok_0, inner.rest);
            if val.outcome is Ok {
                lemma_scan_next_work(val.rest);
            }
        }
    } else {
        lemma_after_number_work(p);
    }
}

/// Reading operators and operands leaves a pending text, with no more work
/// than before.
pub proof fn lemma_parse_biop_work<V>(alg: Algebra<V>, min_prec: int, lhs: V, p: Seq<char>)
    requires
        p.len() > 0,
    ensures
        parse_biop(alg, min_prec, lhs, p).outcome is Ok ==> parse_biop(
            alg,
            min_prec,
            lhs,
            p,
        ).rest.len() > 0 && work(parse_biop(alg, min_prec, lhs, p).rest) <= work(p),
    decreases work(p), 0int,
{
    let op = peek(p);
    let cur_prec = (alg.prec)(op);
    if !(op == NUL || cur_prec < 0 || cur_prec < min_prec) {
        lemma_scan_next_work(p);
        lemma_parse_primary_work(alg, scan_next(p));
        let operand = parse_primary(alg, scan_next(p));
        if operand.outcome is Ok {
            let rhs = if (alg.prec)(peek(operand.rest)) > cur_prec {
                parse_biop(alg, cur_prec + 1, operand.outcome->Ok_0, operand.rest)
            } else {
                operand
            };
            if (alg.prec)(peek(operand.rest)) > cur_prec {
                lemma_parse_biop_work(alg, cur_prec + 1, operand.outcome->Ok_0, operand.rest);
            }
            if rhs.outcome is Ok {
                lemma_parse_biop_work(
                    alg,
                    min_prec,
                    (alg.node)(op, lhs, rhs.outcome->Ok_0),
                    rhs.rest,
                );
            }
        }
    }
}

/// The value of a result that holds a tree.
pub open spec fn tree_result_view(r: Result<Expr, SyntaxError>) -> Result<ExprView, SyntaxError> {
    match r {
        Ok(e) => Ok(e@),
        Err(e) => Err(e),
    }
}

/// The value of a result that holds a text.
pub open spec fn text_result_view(r: Result<String, SyntaxError>) -> Result<
    Seq<char>,
    SyntaxError,
> {
    match r {
        Ok(s) => Ok(s@),
        Err(e) => Err(e),
    }
}

/// The leaf that a number stands for: its text, which must read as a
/// decimal floating-point literal with an optional sign.
pub open spec fn number_leaf(text: Seq<char>) -> Result<ExprView, SyntaxError> {
    if is_signed_float_literal(text) {
        Ok(ExprView::Number(text))
    } else {
        Err(SyntaxError::InvalidNumber)
    }
}

/// Makes the leaf for the text of a number.
fn make_number_leaf(text: &Vec<char>) -> (r: Result<Expr, SyntaxError>)
    ensures
        tree_result_view(r) == number_leaf(text@),
{
    if check_signed_float_literal(text) {
        Ok(Expr::Number(string_of(text)))
    } else {
        Err(SyntaxError::InvalidNumber)
    }
}

/// The operation `lhs op rhs` in a tree.
pub open spec fn binary(op: char, lhs: ExprView, rhs: ExprView) -> ExprView {
    ExprView::Binary(op, Box::new(lhs), Box::new(rhs))
}

/// The operation `lhs op rhs` in a text: `(`, `lhs`, `op`, `rhs`, `)`.
pub open spec fn parenthesised(op: char, lhs: Seq<char>, rhs: Seq<char>) -> Seq<char> {
    seq!['('] + lhs + seq![op] + rhs + seq![')']
}

/// Writes the operation `lhs op rhs` as a text.
fn make_parenthesised(op: char, lhs: &String, rhs: &String) -> (text: String)
    ensures
        text@ == parenthesised(op, lhs@, rhs@),
{
    let mut text = String::new();
    text.push('(');
    text.append(lhs.as_str());
    text.push(op);
    text.append(rhs.as_str());
    text.push(')');
    assert(text@ =~= parenthesised(op, lhs@, rhs@));
    text
}

/// The number that starts the pending text `p`, as a leaf.
pub open spec fn parse_number_leaf(p: Seq<char>) -> CalcStep<ExprView> {
    CalcStep { outcome: number_leaf(number_text(p)), rest: after_number(p) }
}

/// A factor: numbers joined by `*` and `/`, grouped from the left.
pub open spec fn parse_factor(p: Seq<char>) -> CalcStep<ExprView> {
    let first = parse_number_leaf(p);
    if first.outcome is Err {
        first
    } else {
        parse_factor_tail(first.outcome->Ok_0, first.rest)
    }
}

/// The rest of a factor whose value so far is `lhs`.
pub open spec fn parse_factor_tail(lhs: ExprView, p: Seq<char>) -> CalcStep<ExprView>
    decreases work(p),
{
    let op = peek(p);
    if p.len() > 0 && (op == '*' || op == '/') {
        proof {
            lemma_scan_next_work(p);
            lemma_after_number_work(scan_next(p));
        }
        let rhs = parse_number_leaf(scan_next(p));
        if rhs.outcome is Err {
            rhs
        } else {
            parse_factor_tail(binary(op, lhs, rhs.outcome->Ok_0), rhs.rest)
        }
    } else {
        CalcStep { outcome: Ok(lhs), rest: p }
    }
}

/// A term: factors joined by `+` and `-`, grouped from the left.
pub open spec fn parse_term(p: Seq<char>) -> CalcStep<ExprView> {
    let first = parse_factor(p);
    if first.outcome is Err {
        first
    } else {
        parse_term_tail(first.outcome->Ok_0, first.rest)
    }
}

/// The rest of a term whose value so far is `lhs`.
pub open spec fn parse_term_tail(lhs: ExprView, p: Seq<char>) -> CalcStep<ExprView>
    decreases work(p),
{
    let op = peek(p);
    if p.len() > 0 && (op == '+' || op == '-') {
        proof {
            lemma_scan_next_work(p);
            lemma_parse_factor_work(scan_next(p));
        }
        let rhs = parse_factor(scan_next(p));
        if rhs.outcome is Err {
            rhs
        } else {
            parse_term_tail(binary(op, lhs, rhs.outcome->Ok_0), rhs.rest)
        }
    } else {
        CalcStep { outcome: Ok(lhs), rest: p }
    }
}

/// Reading the rest of a factor leaves a pending text, with no more work
/// than before.
pub proof fn lemma_parse_factor_tail_work(lhs: ExprView, p: Seq<char>)
    requires
        p.len() > 0,
    ensures
        parse_factor_tail(lhs, p).rest.len() > 0,
        work(parse_factor_tail(lhs, p).rest) <= work(p),
    decreases work(p),
{
    let op = peek(p);
    if op == '*' || op == '/' {
        lemma_scan_next_work(p);
        lemma_after_number_work(scan_next(p));
        let rhs = parse_number_leaf(scan_next(p));
        if rhs.outcome is Ok {
            lemma_parse_factor_tail_work(binary(op, lhs, rhs.outcome->Ok_0), rhs.rest);
        }
    }
}

/// Reading a factor leaves a pending text, with no more work than before.
pub proof fn lemma_parse_factor_work(p: Seq<char>)
    requires
        p.len() > 0,
    ensures
        parse_factor(p).rest.len() > 0,
        work(parse_factor(p).rest) <= work(p),
{
    lemma_after_number_work(p);
    let first = parse_number_leaf(p);
    if first.outcome is Ok {
        lemma_parse_factor_tail_work(first.outcome->Ok_0, first.rest);
    }
}

/// A parser of sums and differences of products and quotients of numbers.
pub struct TestParser {
    /// The lookahead.
    pub next_char: char,
    /// Where the characters come from.
    pub source: CharSource,
}

impl TestParser {
    /// The text that is still to be read, the lookahead first.
    pub open spec fn pending(&self) -> Seq<char> {
        pending(self.next_char, self.source)
    }

    /// A parser over `source`, with the lookahead primed.
    pub fn new(source: CharSource) -> (parser: TestParser)
        ensures
            parser.pending() == from(source.unread(), 0),
    {
        let mut source = source;
        let ghost text = source.unread();
        let c = source.next_byte();
        let parser = TestParser { next_char: c, source };
        assert(parser.pending() =~= from(text, 0));
        parser
    }

    /// Reads a number.
    pub fn parse(&mut self) -> (r: Result<Expr, SyntaxError>)
        ensures
            tree_result_view(r) == parse_number_leaf(old(self).pending()).outcome,
            final(self).pending() == parse_number_leaf(old(self).pending()).rest,
    {
        self.parse_primary()
    }

    /// Reads one character, then passes over white space.
    pub fn scan_next(&mut self)
        ensures
            final(self).pending() == scan_next(old(self).pending()),
    {
        skip_space(&mut self.next_char, &mut self.source);
    }

    /// Moves the lookahead one character on.
    pub fn get_char(&mut self)
        ensures
            final(self).pending() == from(old(self).pending(), 1),
    {
        read_char(&mut self.next_char, &mut self.source);
    }

    /// Reads a term: factors joined by `+` and `-`, grouped from the left.
    pub fn parse_term(&mut self) -> (r: Result<Expr, SyntaxError>)
        ensures
            tree_result_view(r) == parse_term(old(self).pending()).outcome,
            final(self).pending() == parse_term(old(self).pending()).rest,
    {
        proof {
            lemma_parse_factor_work(self.pending());
        }
        let mut lhs = match self.parse_factor() {
            Ok(lhs) => lhs,
            Err(e) => {
                return Err(e);
            },
        };
        loop
            invariant
                self.pending().len() > 0,
                parse_term_tail(lhs@, self.pending()) == parse_term(old(self).pending()),
            decreases work(self.pending()),
        {
            let op = self.next_char;
            if op == '+' || op == '-' {
                proof {
                    lemma_scan_next_work(self.pending());
                    lemma_parse_factor_work(scan_next(self.pending()));
                }
                self.scan_next();
                let rhs = match self.parse_factor() {
                    Ok(rhs) => rhs,
                    Err(e) => {
                        return Err(e);
                    },
                };
                lhs = Expr::Binary(op, Box::new(lhs), Box::new(rhs));
            } else {
                return Ok(lhs);
            }
        }
    }

    /// Reads a factor: numbers joined by `*` and `/`, grouped from the left.
    pub fn parse_factor(&mut self) -> (r: Result<Expr, SyntaxError>)
        ensures
            tree_result_view(r) == parse_factor(old(self).pending()).outcome,
            final(self).pending() == parse_factor(old(self).pending()).rest,
    {
        proof {
            lemma_after_number_work(self.pending());
        }
        let mut lhs = match self.parse_primary() {
            Ok(lhs) => lhs,
            Err(e) => {
                return Err(e);
            },
        };
        loop
            invariant
                self.pending().len() > 0,
                parse_factor_tail(lhs@, self.pending()) == parse_factor(old(self).pending()),
            decreases work(self.pending()),
        {
            let op = self.next_char;
            if op == '*' || op == '/' {
                proof {
                    lemma_scan_next_work(self.pending());
                    lemma_after_number_work(scan_next(self.pending()));
                }
                self.scan_next();
                let rhs = match self.parse_primary() {
                    Ok(rhs) => rhs,
                    Err(e) => {
                        return Err(e);
                    },
                };
                lhs = Expr::Binary(op, Box::new(lhs), Box::new(rhs));
            } else {
                return Ok(lhs);
            }
        }
    }

    /// Reads the number at the lookahead: the lookahead itself and the
    /// digits after it; then passes over white space. The text must read as
    /// a decimal floating-point literal with an optional sign.
    pub fn parse_num(&mut self) -> (r: Result<Expr, SyntaxError>)
        ensures
            tree_result_view(r) == parse_number_leaf(old(self).pending()).outcome,
            final(self).pending() == parse_number_leaf(old(self).pending()).rest,
    {
        let text = read_number(&mut self.next_char, &mut self.source);
        make_number_leaf(&text)
    }

    /// Reads a number.
    fn parse_primary(&mut self) -> (r: Result<Expr, SyntaxError>)
        ensures
            tree_result_view(r) == parse_number_leaf(old(self).pending()).outcome,
            final(self).pending() == parse_number_leaf(old(self).pending()).rest,
    {
        self.parse_num()
    }
}

/// The strengths of `+` and `*`.
pub open spec fn sum_product_prec(c: char) -> int {
    if c == '+' {
        10
    } else if c == '*' {
        40
    } else {
        -1
    }
}

/// The strengths of `+`, `-`, `/` and `*`.
pub open spec fn four_ops_prec(c: char) -> int {
    if c == '+' || c == '-' {
        10
    } else if c == '/' || c == '*' {
        40
    } else {
        -1
    }
}

/// Trees over `+` and `*`, whose numbers must read as floating-point
/// literals.
pub open spec fn tree_algebra() -> Algebra<ExprView> {
    Algebra {
        prec: |c: char| sum_product_prec(c),
        leaf: |text: Seq<char>| number_leaf(text),
        node: |op: char, lhs: ExprView, rhs: ExprView| binary(op, lhs, rhs),
    }
}

/// Fully parenthesised texts over `+`, `-`, `/` and `*`, whose numbers are
/// taken as they stand.
pub open spec fn text_algebra() -> Algebra<Seq<char>> {
    Algebra {
        prec: |c: char| four_ops_prec(c),
        leaf: |text: Seq<char>| Ok::<Seq<char>, SyntaxError>(text),
        node: |op: char, lhs: Seq<char>, rhs: Seq<char>| parenthesised(op, lhs, rhs),
    }
}

/// A precedence-climbing parser of sums and products of numbers, with
/// parentheses, that builds a tree.
pub struct LoopParser {
    /// The lookahead.
    pub next_char: char,
    /// Where the characters come from.
    pub source: CharSource,
}

impl LoopParser {
    /// The text that is still to be read, the lookahead first.
    pub open spec fn pending(&self) -> Seq<char> {
        pending(self.next_char, self.source)
    }

    /// A parser over `source`, with the lookahead primed.
    pub fn new(source: CharSource) -> (parser: LoopParser)
        ensures
            parser.pending() == from(source.unread(), 0),
    {
        let mut source = source;
        let ghost text = source.unread();
        let c = source.next_byte();
        let parser = LoopParser { next_char: c, source };
        assert(parser.pending() =~= from(text, 0));
        parser
    }

    /// Reads the number at the lookahead: the lookahead itself and the
    /// digits after it; then passes over white space. The text must read as
    /// a decimal floating-point literal with an optional sign.
    pub fn parse_num(&mut self) -> (r: Result<Expr, SyntaxError>)
        ensures
            tree_result_view(r) == number_leaf(number_text(old(self).pending())),
            final(self).pending() == after_number(old(self).pending()),
    {
        let text = read_number(&mut self.next_char, &mut self.source);
        make_number_leaf(&text)
    }

    /// Moves the lookahead one character on.
    pub fn get_char(&mut self)
        ensures
            final(self).pending() == from(old(self).pending(), 1),
    {
        read_char(&mut self.next_char, &mut self.source);
    }

    /// Reads one character, then passes over white space.
    pub fn scan_next(&mut self)
        ensures
            final(self).pending() == scan_next(old(self).pending()),
    {
        skip_space(&mut self.next_char, &mut self.source);
    }

    /// The strength of `c` as an operator: 10 for `+`, 40 for `*`, else -1.
    pub fn get_prec(c: char) -> (prec: i64)
        ensures
            prec == sum_product_prec(c),
    {
        match c {
            '+' => 10,
            '*' => 40,
            _ => -1,
        }
    }

    /// Reads the operators of strength `min_prec` and more that follow the
    /// operand `lhs`, each with its right operand, and builds the tree,
    /// stronger operators deeper, equal ones to the left.
    pub fn parse_biop(&mut self, lhs: Expr, min_prec: i64) -> (r: Result<Expr, SyntaxError>)
        requires
            min_prec >= 0,
        ensures
            tree_result_view(r) == parse_biop(
                tree_algebra(),
                min_prec as int,
                lhs@,
                old(self).pending(),
            ).outcome,
            final(self).pending() == parse_biop(
                tree_algebra(),
                min_prec as int,
                lhs@,
                old(self).pending(),
            ).rest,
        decreases work(old(self).pending()), 0int,
    {
        let mut left = lhs;
        loop
            invariant
                min_prec >= 0,
                work(self.pending()) <= work(old(self).pending()),
                parse_biop(tree_algebra(), min_prec as int, left@, self.pending()) == parse_biop(
                    tree_algebra(),
                    min_prec as int,
                    lhs@,
                    old(self).pending(),
                ),
            decreases work(self.pending()),
        {
            let op = self.next_char;
            let cur_prec = Self::get_prec(op);
            if cur_prec < min_prec {
                return Ok(left);
            }
            proof {
                lemma_scan_next_work(self.pending());
                lemma_parse_primary_work(tree_algebra(), scan_next(self.pending()));
            }
            self.scan_next();
            let mut rhs = match self.parse_primary() {
                Ok(rhs) => rhs,
                Err(e) => {
                    return Err(e);
                },
            };
            let next_op = self.next_char;
            let next_prec = Self::get_prec(next_op);
            if next_prec > cur_prec {
                proof {
                    lemma_parse_biop_work(tree_algebra(), cur_prec + 1, rhs@, self.pending());
                }
                rhs = match self.parse_biop(rhs, cur_prec + 1) {
                    Ok(rhs) => rhs,
                    Err(e) => {
                        return Err(e);
                    },
                };
            }
            left = Expr::Binary(op, Box::new(left), Box::new(rhs));
        }
    }

    /// Reads a primary: a number, or an expression in parentheses.
    pub fn parse_primary(&mut self) -> (r: Result<Expr, SyntaxError>)
        ensures
            tree_result_view(r) == parse_primary(tree_algebra(), old(self).pending()).outcome,
            final(self).pending() == parse_primary(tree_algebra(), old(self).pending()).rest,
        decreases work(old(self).pending()), 1int,
    {
        match self.next_char {
            '(' => {
                proof {
                    lemma_scan_next_work(self.pending());
                    lemma_parse_primary_work(tree_algebra(), scan_next(self.pending()));
                }
                self.scan_next();
                let lhs = match self.parse_primary() {
                    Ok(lhs) => lhs,
                    Err(e) => {
                        return Err(e);
                    },
                };
                let val = match self.parse_biop(lhs, 0) {
                    Ok(val) => val,
                    Err(e) => {
                        return Err(e);
                    },
                };
                if self.next_char != ')' {
                    return Err(SyntaxError::ExpectedCloseParen);
                }
                self.scan_next();
                Ok(val)
            },
            _ => self.parse_num(),
        }
    }
}

/// A precedence-climbing parser of the four operations on numbers, with
/// parentheses, that writes what it reads with every operation in
/// parentheses.
pub struct LoopParserString {
    /// The lookahead.
    pub next_char: char,
    /// Where the characters come from.
    pub source: CharSource,
}

impl LoopParserString {
    /// The text that is still to be read, the lookahead first.
    pub open spec fn pending(&self) -> Seq<char> {
        pending(self.next_char, self.source)
    }

    /// A parser over `source`, with the lookahead primed.
    pub fn new(source: CharSource) -> (parser: LoopParserString)
        ensures
            parser.pending() == from(source.unread(), 0),
    {
        let mut source = source;
        let ghost text = source.unread();
        let c = source.next_byte();
        let parser = LoopParserString { next_char: c, source };
        assert(parser.pending() =~= from(text, 0));
        parser
    }

    /// Reads the number at the lookahead: the lookahead itself, whatever it
    /// is, and the digits after it; then passes over white space.
    pub fn parse_num(&mut self) -> (res: String)
        ensures
            res@ == number_text(old(self).pending()),
            final(self).pending() == after_number(old(self).pending()),
    {
        let text = read_number(&mut self.next_char, &mut self.source);
        string_of(&text)
    }

    /// Moves the lookahead one character on.
    pub fn get_char(&mut self)
        ensures
            final(self).pending() == from(old(self).pending(), 1),
    {
        read_char(&mut self.next_char, &mut self.source);
    }

    /// Reads one character, then passes over white space.
    pub fn scan_next(&mut self)
        ensures
            final(self).pending() == scan_next(old(self).pending()),
    {
        skip_space(&mut self.next_char, &mut self.source);
    }

    /// The strength of `c` as an operator: 10 for `+` and `-`, 40 for `/`
    /// and `*`, else -1.
    pub fn get_prec(c: char) -> (prec: i64)
        ensures
            prec == four_ops_prec(c),
    {
        match c {
            '+' => 10,
            '-' => 10,
            '/' => 40,
            '*' => 40,
            _ => -1,
        }
    }

    /// Reads the operators of strength `min_prec` and more that follow the
    /// operand `lhs`, each with its right operand, and writes each operation
    /// in parentheses, stronger operators inside, equal ones from the left.
    pub fn parse_biop(&mut self, lhs: String, min_prec: i64) -> (r: Result<String, SyntaxError>)
        requires
            min_prec >= 0,
        ensures
            text_result_view(r) == parse_biop(
                text_algebra(),
                min_prec as int,
                lhs@,
                old(self).pending(),
            ).outcome,
            final(self).pending() == parse_biop(
                text_algebra(),
                min_prec as int,
                lhs@,
                old(self).pending(),
            ).rest,
        decreases work(old(self).pending()), 0int,
    {
        let mut left = lhs;
        loop
            invariant
                min_prec >= 0,
                work(self.pending()) <= work(old(self).pending()),
                parse_biop(text_algebra(), min_prec as int, left@, self.pending()) == parse_biop(
                    text_algebra(),
                    min_prec as int,
                    lhs@,
                    old(self).pending(),
                ),
            decreases work(self.pending()),
        {
            let op = self.next_char;
            let cur_prec = Self::get_prec(op);
            if cur_prec < min_prec {
                return Ok(left);
            }
            proof {
                lemma_scan_next_work(self.pending());
                lemma_parse_primary_work(text_algebra(), scan_next(self.pending()));
            }
            self.scan_next();
            let mut rhs = match self.parse_primary() {
                Ok(rhs) => rhs,
                Err(e) => {
                    return Err(e);
                },
            };
            let next_op = self.next_char;
            let next_prec = Self::get_prec(next_op);
            if next_prec > cur_prec {
                proof {
                    lemma_parse_biop_work(text_algebra(), cur_prec + 1, rhs@, self.pending());
                }
                rhs = match self.parse_biop(rhs, cur_prec + 1) {
                    Ok(rhs) => rhs,
                    Err(e) => {
                        return Err(e);
                    },
                };
            }
            left = make_parenthesised(op, &left, &rhs);
        }
    }

    /// Reads a primary: a number, or an expression in parentheses.
    pub fn parse_primary(&mut self) -> (r: Result<String, SyntaxError>)
        ensures
            text_result_view(r) == parse_primary(text_algebra(), old(self).pending()).outcome,
            final(self).pending() == parse_primary(text_algebra(), old(self).pending()).rest,
        decreases work(old(self).pending()), 1int,
    {
        match self.next_char {
            '(' => {
                proof {
                    lemma_scan_next_work(self.pending());
                    lemma_parse_primary_work(text_algebra(), scan_next(self.pending()));
                }
                self.scan_next();
                let lhs = match self.parse_primary() {
                    Ok(lhs) => lhs,
                    Err(e) => {
                        return Err(e);
                    },
                };
                let val = match self.parse_biop(lhs, 0) {
                    Ok(val) => val,
                    Err(e) => {
                        return Err(e);
                    },
                };
                if self.next_char != ')' {
                    return Err(SyntaxError::ExpectedCloseParen);
                }
                self.scan_next();
                Ok(val)
            },
            _ => Ok(self.parse_num()),
        }
    }
}

} // verus!
