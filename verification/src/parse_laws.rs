//! Laws of the parser, proved of the grammar that its contracts are stated
//! with.
use vstd::prelude::*;
use crate::ast::{ExprView, FormView};
use crate::error::SyntaxError;
use crate::grammar::{
    anonymous_prototype, lemma_parse_binary_op_rhs_shrinks, lemma_parse_expr_shrinks,
    lemma_parse_form_shrinks, lemma_parse_primary_shrinks, main_loop, parse_args,
    parse_binary_op_rhs, parse_expr, parse_form, parse_identifier_expr, parse_number,
    parse_params, parse_paren_expr, parse_primary, parse_prototype, precedence,
};
use crate::lex_laws::{
    all_comment_chars, between_tokens, insert_all, insertions_between_tokens, lemma_comment_equivalent, lemma_eof_repeats,
    lemma_whitespace_transparent, tokens, Insertion,
};
use crate::lexer::{
    advance, done, lemma_advance_shrinks, lemma_lex_rest, lex, measure, LexState, Step,
};
use crate::parser::Parser;
use crate::token::TokenView;

verus! {

/// The operation `lhs op rhs`.
pub open spec fn binary(op: char, lhs: ExprView, rhs: ExprView) -> ExprView {
    ExprView::Binary(op, Box::new(lhs), Box::new(rhs))
}

/// The number of operations on the longest path of a tree of operations.
pub open spec fn depth(e: ExprView) -> nat
    decreases e,
{
    match e {
        ExprView::Binary(_, lhs, rhs) => 1 + if depth(*lhs) >= depth(*rhs) {
            depth(*lhs)
        } else {
            depth(*rhs)
        },
        _ => 0,
    }
}

/// Determinism: what `parse_expr` returns, and the state it leaves, depend
/// on nothing but the current token and the input that remains. Two parsers
/// that agree on those agree on the outcome, whatever they read before.
pub proof fn lemma_parse_expr_deterministic(p: Parser, q: Parser)
    requires
        p.lexer.cur_tok@ == q.lexer.cur_tok@,
        p.lexer.remaining() == q.lexer.remaining(),
    ensures
        parse_expr(p@) == parse_expr(q@),
{
}

/// Precedence: where the input reads `a op1 b op2 c`, with `a`, `b` and `c`
/// primaries, `op1` and `op2` operators, and no operator after `c`, the
/// expression is `(a op1 b) op2 c` if `op1` binds at least as tightly as
/// `op2`, and `a op1 (b op2 c)` if it does not. The two trees differ, so the
/// first is the result exactly when `op1` binds at least as tightly.
pub proof fn lemma_precedence(s: LexState, op1: char, op2: char)
    requires
        ({
            let first = parse_primary(s);
            let second = parse_primary(advance(first.state).state);
            let third = parse_primary(advance(second.state).state);
            &&& first.outcome is Ok
            &&& first.state.cur == TokenView::Char(op1)
            &&& precedence(TokenView::Char(op1)) >= 0
            &&& advance(first.state).outcome is Ok
            &&& second.outcome is Ok
            &&& second.state.cur == TokenView::Char(op2)
            &&& precedence(TokenView::Char(op2)) >= 0
            &&& advance(second.state).outcome is Ok
            &&& third.outcome is Ok
            &&& precedence(third.state.cur) < 0
        }),
    ensures
        ({
            let first = parse_primary(s);
            let second = parse_primary(advance(first.state).state);
            let third = parse_primary(advance(second.state).state);
            let a = first.outcome->Ok_0;
            let b = second.outcome->Ok_0;
            let c = third.outcome->Ok_0;
            let left = binary(op2, binary(op1, a, b), c);
            let right = binary(op1, a, binary(op2, b, c));
            &&& left != right
            &&& parse_expr(s) == done(
                if precedence(TokenView::Char(op1)) >= precedence(TokenView::Char(op2)) {
                    left
                } else {
                    right
                },
                third.state,
            )
            &&& parse_expr(s).outcome == Ok::<ExprView, SyntaxError>(left) <==> precedence(
                TokenView::Char(op1),
            ) >= precedence(TokenView::Char(op2))
        }),
{
    let first = parse_primary(s);
    let s1 = first.state;
    let s2 = advance(s1).state;
    let second = parse_primary(s2);
    let s3 = second.state;
    let s4 = advance(s3).state;
    let third = parse_primary(s4);
    let s5 = third.state;
    let a = first.outcome->Ok_0;
    let b = second.outcome->Ok_0;
    let c = third.outcome->Ok_0;
    let p1 = precedence(TokenView::Char(op1));
    let p2 = precedence(TokenView::Char(op2));
    lemma_parse_primary_shrinks(s);
    lemma_advance_shrinks(s1);
    lemma_parse_primary_shrinks(s2);
    lemma_advance_shrinks(s3);
    lemma_parse_primary_shrinks(s4);
    assert(binary(op2, binary(op1, a, b), c) != binary(op1, a, binary(op2, b, c))) by {
        assert(depth(binary(op1, a, b)) > depth(a));
    }
    assert(parse_expr(s) == parse_binary_op_rhs(0, a, s1));
    if p1 >= p2 {
        let ab = binary(op1, a, b);
        assert(parse_binary_op_rhs(0, binary(op2, ab, c), s5) == done(binary(op2, ab, c), s5));
        assert(parse_binary_op_rhs(0, ab, s3) == done(binary(op2, ab, c), s5));
        assert(parse_binary_op_rhs(0, a, s1) == done(binary(op2, ab, c), s5));
    } else {
        let bc = binary(op2, b, c);
        assert(parse_binary_op_rhs(p1 + 1, bc, s5) == done(bc, s5));
        assert(parse_binary_op_rhs(p1 + 1, b, s3) == done(bc, s5));
        assert(parse_binary_op_rhs(0, binary(op1, a, bc), s5) == done(binary(op1, a, bc), s5));
        assert(parse_binary_op_rhs(0, a, s1) == done(binary(op1, a, bc), s5));
    }
}

/// A number is read as itself: where the current token is the number `n`
/// and the token after it can be read, the primary is `Number(n)`, and the
/// parser has moved one token on.
pub proof fn lemma_primary_number(s: LexState, n: Seq<char>)
    requires
        s.cur == TokenView::Number(n),
        advance(s).outcome is Ok,
    ensures
        parse_primary(s) == done(ExprView::Number(n), advance(s).state),
{
}

/// A name that is not followed by `(` is read as a variable of that name.
pub proof fn lemma_primary_variable(s: LexState, name: Seq<char>)
    requires
        s.cur == TokenView::Identifier(name),
        advance(s).outcome is Ok,
        advance(s).state.cur != TokenView::Char('('),
    ensures
        parse_primary(s) == done(ExprView::Variable(name), advance(s).state),
{
}

/// A name that is followed by `(` is read as a call of that name, if it can
/// be read at all.
pub proof fn lemma_primary_call(s: LexState, name: Seq<char>)
    requires
        s.cur == TokenView::Identifier(name),
        advance(s).outcome is Ok,
        advance(s).state.cur == TokenView::Char('('),
        parse_primary(s).outcome is Ok,
    ensures
        parse_primary(s).outcome->Ok_0 is Call,
        parse_primary(s).outcome->Ok_0->callee == name,
{
    let a = advance(s);
    let b = advance(a.state);
    if b.outcome is Ok && b.state.cur != TokenView::Char(')') {
        lemma_args_make_call(name, Seq::empty(), b.state);
    }
}

/// An argument list that can be read ends in a call of the callee.
proof fn lemma_args_make_call(callee: Seq<char>, args: Seq<ExprView>, s: LexState)
    requires
        parse_args(callee, args, s).outcome is Ok,
    ensures
        parse_args(callee, args, s).outcome->Ok_0 is Call,
        parse_args(callee, args, s).outcome->Ok_0->callee == callee,
    decreases measure(s),
{
    lemma_parse_expr_shrinks(s);
    let arg = parse_expr(s);
    if arg.outcome is Ok && arg.state.cur == TokenView::Char(',') {
        lemma_advance_shrinks(arg.state);
        let a = advance(arg.state);
        if a.outcome is Ok {
            lemma_args_make_call(callee, args.push(arg.outcome->Ok_0), a.state);
        }
    }
}

/// Whether every operation in a tree has one of the recognised operators,
/// `<`, `+`, `-` and `*`.
pub open spec fn operators_recognised(e: ExprView) -> bool
    decreases e,
{
    match e {
        ExprView::Binary(op, lhs, rhs) => {
            &&& precedence(TokenView::Char(op)) >= 0
            &&& operators_recognised(*lhs)
            &&& operators_recognised(*rhs)
        },
        ExprView::Call { callee, args } => forall|i: int|
            0 <= i < args.len() ==> operators_recognised(#[trigger] args[i]),
        ExprView::Function { prototype, body } => {
            &&& operators_recognised(*prototype)
            &&& operators_recognised(*body)
        },
        _ => true,
    }
}

/// Every operation in a primary that was read has a recognised operator.
pub proof fn lemma_primary_operators(s: LexState)
    requires
        parse_primary(s).outcome is Ok,
    ensures
        operators_recognised(parse_primary(s).outcome->Ok_0),
    decreases measure(s), 2int,
{
    match s.cur {
        TokenView::Identifier(name) => {
            lemma_advance_shrinks(s);
            let a = advance(s);
            if a.state.cur == TokenView::Char('(') {
                lemma_advance_shrinks(a.state);
                let b = advance(a.state);
                if b.state.cur == TokenView::Char(')') {
                    assert(operators_recognised(
                        ExprView::Call { callee: name, args: Seq::empty() },
                    ));
                } else {
                    lemma_args_operators(name, Seq::empty(), b.state);
                }
            }
        },
        TokenView::Char(c) => {
            lemma_advance_shrinks(s);
            lemma_expr_operators(advance(s).state);
        },
        _ => {},
    }
}

/// Every operation in the arguments of a call that was read has a
/// recognised operator.
proof fn lemma_args_operators(callee: Seq<char>, args: Seq<ExprView>, s: LexState)
    requires
        parse_args(callee, args, s).outcome is Ok,
        forall|i: int| 0 <= i < args.len() ==> operators_recognised(#[trigger] args[i]),
    ensures
        operators_recognised(parse_args(callee, args, s).outcome->Ok_0),
    decreases measure(s), 4int,
{
    lemma_parse_expr_shrinks(s);
    lemma_expr_operators(s);
    let arg = parse_expr(s);
    let more = args.push(arg.outcome->Ok_0);
    assert forall|i: int| 0 <= i < more.len() implies operators_recognised(#[trigger] more[i]) by {
        if i < args.len() {
            assert(more[i] == args[i]);
        }
    }
    if arg.state.cur == TokenView::Char(')') {
        assert(operators_recognised(ExprView::Call { callee, args: more }));
    } else {
        lemma_advance_shrinks(arg.state);
        lemma_args_operators(callee, more, advance(arg.state).state);
    }
}

/// Every operation in an expression that was read has a recognised
/// operator.
pub proof fn lemma_expr_operators(s: LexState)
    requires
        parse_expr(s).outcome is Ok,
    ensures
        operators_recognised(parse_expr(s).outcome->Ok_0),
    decreases measure(s), 3int,
{
    lemma_parse_primary_shrinks(s);
    lemma_primary_operators(s);
    let lhs = parse_primary(s);
    lemma_binary_op_rhs_operators(0, lhs.outcome->Ok_0, lhs.state);
}

/// Read from a threshold of 0 or more, onto an operand whose operators are
/// recognised, every operation has a recognised operator.
pub proof fn lemma_binary_op_rhs_operators(min_precedence: int, lhs: ExprView, s: LexState)
    requires
        min_precedence >= 0,
        operators_recognised(lhs),
        parse_binary_op_rhs(min_precedence, lhs, s).outcome is Ok,
    ensures
        operators_recognised(parse_binary_op_rhs(min_precedence, lhs, s).outcome->Ok_0),
    decreases measure(s), 0int,
{
    let cur_prec = precedence(s.cur);
    if cur_prec >= min_precedence {
        let op = s.cur->Char_0;
        lemma_advance_shrinks(s);
        let a = advance(s);
        lemma_parse_primary_shrinks(a.state);
        lemma_primary_operators(a.state);
        let operand = parse_primary(a.state);
        let rhs = if precedence(operand.state.cur) > cur_prec {
            parse_binary_op_rhs(cur_prec + 1, operand.outcome->Ok_0, operand.state)
        } else {
            operand
        };
        if precedence(operand.state.cur) > cur_prec {
            lemma_parse_binary_op_rhs_shrinks(
                cur_prec + 1,
                operand.outcome->Ok_0,
                operand.state,
            );
            lemma_binary_op_rhs_operators(cur_prec + 1, operand.outcome->Ok_0, operand.state);
        }
        lemma_binary_op_rhs_operators(
            min_precedence,
            binary(op, lhs, rhs.outcome->Ok_0),
            rhs.state,
        );
    }
}

/// Every operation in a top-level form that was read has a recognised
/// operator.
pub proof fn lemma_form_operators(s: LexState)
    requires
        parse_form(s).outcome is Ok,
    ensures
        operators_recognised(parse_form(s).outcome->Ok_0.tree),
{
    match s.cur {
        TokenView::Def => {
            let proto = parse_prototype(advance(s).state);
            lemma_prototype_shape(advance(s).state);
            lemma_expr_operators(proto.state);
            assert(operators_recognised(proto.outcome->Ok_0));
        },
        TokenView::Extern => {
            lemma_prototype_shape(advance(s).state);
        },
        _ => {
            lemma_expr_operators(s);
            assert(operators_recognised(anonymous_prototype()));
        },
    }
}

/// A prototype that was read is a `Prototype` node.
pub proof fn lemma_prototype_shape(s: LexState)
    requires
        parse_prototype(s).outcome is Ok,
    ensures
        parse_prototype(s).outcome->Ok_0 is Prototype,
{
    let a = advance(s);
    lemma_params_shape(s.cur->Identifier_0, Seq::empty(), a.state);
}

/// A parameter list that was read ends in a `Prototype` node.
proof fn lemma_params_shape(func_name: Seq<char>, arg_names: Seq<Seq<char>>, s: LexState)
    requires
        parse_params(func_name, arg_names, s).outcome is Ok,
    ensures
        parse_params(func_name, arg_names, s).outcome->Ok_0 is Prototype,
    decreases s.rest.len(),
{
    let a = advance(s);
    if a.state.cur is Identifier {
        lemma_lex_rest(s.rest);
        lemma_params_shape(func_name, arg_names.push(a.state.cur->Identifier_0), a.state);
    }
}

/// Whether two lexer states hold the same tokens: the same current token,
/// and inputs with the same sequence of tokens.
pub open spec fn same_tokens(s: LexState, t: LexState) -> bool {
    s.cur == t.cur && tokens(s.rest) == tokens(t.rest)
}

/// Whether two steps came to the same: the same outcome and, where they
/// succeeded, states that hold the same tokens.
pub open spec fn same_step<T>(a: Step<T>, b: Step<T>) -> bool {
    a.outcome == b.outcome && (a.outcome is Ok ==> same_tokens(a.state, b.state))
}

/// Advancing sees only tokens.
pub proof fn lemma_advance_sees_tokens(s: LexState, t: LexState)
    requires
        same_tokens(s, t),
    ensures
        same_step(advance(s), advance(t)),
{
    let ls = lex(s.rest);
    let lt = lex(t.rest);
    assert(tokens(s.rest)[0] == ls.token);
    assert(tokens(t.rest)[0] == lt.token);
    if ls.token == Some(TokenView::Eof) {
        lemma_eof_repeats(s.rest);
        lemma_eof_repeats(t.rest);
    } else if ls.token is Some {
        lemma_lex_rest(s.rest);
        lemma_lex_rest(t.rest);
        assert(tokens(ls.rest) =~= tokens(s.rest).skip(1));
        assert(tokens(lt.rest) =~= tokens(t.rest).skip(1));
    }
}

/// Reading a number sees only tokens.
proof fn lemma_number_sees_tokens(s: LexState, t: LexState)
    requires
        same_tokens(s, t),
    ensures
        same_step(parse_number(s), parse_number(t)),
{
    lemma_advance_sees_tokens(s, t);
}

/// Reading a primary sees only tokens.
pub proof fn lemma_primary_sees_tokens(s: LexState, t: LexState)
    requires
        same_tokens(s, t),
    ensures
        same_step(parse_primary(s), parse_primary(t)),
    decreases measure(s), 2int,
{
    match s.cur {
        TokenView::Identifier(_) => lemma_identifier_expr_sees_tokens(s, t),
        TokenView::Number(_) => lemma_number_sees_tokens(s, t),
        TokenView::Char(c) => if c == '(' {
            lemma_paren_expr_sees_tokens(s, t);
        },
        _ => {},
    }
}

/// Reading an expression in parentheses sees only tokens.
proof fn lemma_paren_expr_sees_tokens(s: LexState, t: LexState)
    requires
        same_tokens(s, t),
    ensures
        same_step(parse_paren_expr(s), parse_paren_expr(t)),
    decreases measure(s), 1int,
{
    if s.cur == TokenView::Char('(') {
        lemma_advance_shrinks(s);
        lemma_advance_sees_tokens(s, t);
        let a = advance(s);
        let b = advance(t);
        if a.outcome is Ok {
            lemma_expr_sees_tokens(a.state, b.state);
            let inner = parse_expr(a.state);
            if inner.outcome is Ok && inner.state.cur == TokenView::Char(')') {
                lemma_advance_sees_tokens(inner.state, parse_expr(b.state).state);
            }
        }
    }
}

/// Reading a variable or a call sees only tokens.
proof fn lemma_identifier_expr_sees_tokens(s: LexState, t: LexState)
    requires
        same_tokens(s, t),
    ensures
        same_step(parse_identifier_expr(s), parse_identifier_expr(t)),
    decreases measure(s), 1int,
{
    if s.cur is Identifier {
        let name = s.cur->Identifier_0;
        lemma_advance_shrinks(s);
        lemma_advance_sees_tokens(s, t);
        let a = advance(s);
        let at = advance(t);
        if a.outcome is Ok && a.state.cur == TokenView::Char('(') {
            lemma_advance_shrinks(a.state);
            lemma_advance_sees_tokens(a.state, at.state);
            let b = advance(a.state);
            let bt = advance(at.state);
            if b.outcome is Ok {
                if b.state.cur == TokenView::Char(')') {
                    lemma_advance_sees_tokens(b.state, bt.state);
                } else {
                    lemma_args_sees_tokens(name, Seq::empty(), b.state, bt.state);
                }
            }
        }
    }
}

/// Reading the arguments of a call sees only tokens.
proof fn lemma_args_sees_tokens(
    callee: Seq<char>,
    args: Seq<ExprView>,
    s: LexState,
    t: LexState,
)
    requires
        same_tokens(s, t),
    ensures
        same_step(parse_args(callee, args, s), parse_args(callee, args, t)),
    decreases measure(s), 4int,
{
    lemma_parse_expr_shrinks(s);
    lemma_parse_expr_shrinks(t);
    lemma_expr_sees_tokens(s, t);
    let arg = parse_expr(s);
    let argt = parse_expr(t);
    if arg.outcome is Ok {
        let more = args.push(arg.outcome->Ok_0);
        if arg.state.cur == TokenView::Char(')') {
            lemma_advance_sees_tokens(arg.state, argt.state);
        } else if arg.state.cur == TokenView::Char(',') {
            lemma_advance_shrinks(arg.state);
            lemma_advance_sees_tokens(arg.state, argt.state);
            if advance(arg.state).outcome is Ok {
                lemma_args_sees_tokens(
                    callee,
                    more,
                    advance(arg.state).state,
                    advance(argt.state).state,
                );
            }
        }
    }
}

/// Reading an expression sees only tokens: two parsers whose current tokens
/// are the same, over inputs with the same sequence of tokens, read the same
/// expression or stop at the same error, however the inputs are spaced and
/// commented.
pub proof fn lemma_expr_sees_tokens(s: LexState, t: LexState)
    requires
        same_tokens(s, t),
    ensures
        same_step(parse_expr(s), parse_expr(t)),
    decreases measure(s), 3int,
{
    lemma_parse_primary_shrinks(s);
    lemma_parse_primary_shrinks(t);
    lemma_primary_sees_tokens(s, t);
    let lhs = parse_primary(s);
    if lhs.outcome is Ok {
        lemma_binary_op_rhs_sees_tokens(0, lhs.outcome->Ok_0, lhs.state, parse_primary(t).state);
    }
}

/// Reading operators and operands sees only tokens.
pub proof fn lemma_binary_op_rhs_sees_tokens(
    min_precedence: int,
    lhs: ExprView,
    s: LexState,
    t: LexState,
)
    requires
        same_tokens(s, t),
    ensures
        same_step(
            parse_binary_op_rhs(min_precedence, lhs, s),
            parse_binary_op_rhs(min_precedence, lhs, t),
        ),
    decreases measure(s), 0int,
{
    let cur_prec = precedence(s.cur);
    if cur_prec >= min_precedence && s.cur is Char {
        let op = s.cur->Char_0;
        lemma_advance_shrinks(s);
        lemma_advance_sees_tokens(s, t);
        let a = advance(s);
        let at = advance(t);
        if a.outcome is Ok {
            lemma_parse_primary_shrinks(a.state);
            lemma_parse_primary_shrinks(at.state);
            lemma_primary_sees_tokens(a.state, at.state);
            let operand = parse_primary(a.state);
            let operandt = parse_primary(at.state);
            if operand.outcome is Ok {
                let tighter = precedence(operand.state.cur) > cur_prec;
                if tighter {
                    lemma_parse_binary_op_rhs_shrinks(
                        cur_prec + 1,
                        operand.outcome->Ok_0,
                        operand.state,
                    );
                    lemma_parse_binary_op_rhs_shrinks(
                        cur_prec + 1,
                        operandt.outcome->Ok_0,
                        operandt.state,
                    );
                    lemma_binary_op_rhs_sees_tokens(
                        cur_prec + 1,
                        operand.outcome->Ok_0,
                        operand.state,
                        operandt.state,
                    );
                }
                let rhs = if tighter {
                    parse_binary_op_rhs(cur_prec + 1, operand.outcome->Ok_0, operand.state)
                } else {
                    operand
                };
                let rhst = if tighter {
                    parse_binary_op_rhs(cur_prec + 1, operandt.outcome->Ok_0, operandt.state)
                } else {
                    operandt
                };
                if rhs.outcome is Ok {
                    lemma_binary_op_rhs_sees_tokens(
                        min_precedence,
                        binary(op, lhs, rhs.outcome->Ok_0),
                        rhs.state,
                        rhst.state,
                    );
                }
            }
        }
    }
}

/// Reading the parameters of a prototype sees only tokens.
proof fn lemma_params_sees_tokens(
    func_name: Seq<char>,
    arg_names: Seq<Seq<char>>,
    s: LexState,
    t: LexState,
)
    requires
        same_tokens(s, t),
    ensures
        same_step(
            parse_params(func_name, arg_names, s),
            parse_params(func_name, arg_names, t),
        ),
    decreases s.rest.len(),
{
    lemma_advance_sees_tokens(s, t);
    let a = advance(s);
    let at = advance(t);
    if a.outcome is Ok {
        if a.state.cur is Identifier {
            lemma_lex_rest(s.rest);
            lemma_params_sees_tokens(
                func_name,
                arg_names.push(a.state.cur->Identifier_0),
                a.state,
                at.state,
            );
        } else if a.state.cur == TokenView::Char(')') {
            lemma_advance_sees_tokens(a.state, at.state);
        }
    }
}

/// Reading a prototype sees only tokens.
pub proof fn lemma_prototype_sees_tokens(s: LexState, t: LexState)
    requires
        same_tokens(s, t),
    ensures
        same_step(parse_prototype(s), parse_prototype(t)),
{
    if s.cur is Identifier {
        lemma_advance_sees_tokens(s, t);
        let a = advance(s);
        if a.outcome is Ok && a.state.cur == TokenView::Char('(') {
            lemma_params_sees_tokens(
                s.cur->Identifier_0,
                Seq::empty(),
                a.state,
                advance(t).state,
            );
        }
    }
}

/// Reading a top-level form sees only tokens.
pub proof fn lemma_form_sees_tokens(s: LexState, t: LexState)
    requires
        same_tokens(s, t),
    ensures
        same_step(parse_form(s), parse_form(t)),
{
    match s.cur {
        TokenView::Def => {
            lemma_advance_sees_tokens(s, t);
            if advance(s).outcome is Ok {
                lemma_prototype_sees_tokens(advance(s).state, advance(t).state);
                let proto = parse_prototype(advance(s).state);
                if proto.outcome is Ok {
                    lemma_expr_sees_tokens(proto.state, parse_prototype(advance(t).state).state);
                }
            }
            assert(parse_form(s).outcome == parse_form(t).outcome);
        },
        TokenView::Extern => {
            lemma_advance_sees_tokens(s, t);
            if advance(s).outcome is Ok {
                lemma_prototype_sees_tokens(advance(s).state, advance(t).state);
            }
        },
        _ => {
            lemma_expr_sees_tokens(s, t);
        },
    }
}

/// A run over the input sees only tokens: two parsers whose current tokens
/// are the same, over inputs with the same sequence of tokens, report the
/// same forms and the same error, if any.
pub proof fn lemma_main_loop_sees_tokens(s: LexState, t: LexState, forms: Seq<FormView>)
    requires
        same_tokens(s, t),
    ensures
        main_loop(s, forms).forms == main_loop(t, forms).forms,
        main_loop(s, forms).error == main_loop(t, forms).error,
    decreases measure(s),
{
    if s.cur is Eof {
    } else if s.cur == TokenView::Char(';') {
        lemma_advance_shrinks(s);
        lemma_advance_sees_tokens(s, t);
        if advance(s).outcome is Ok {
            lemma_main_loop_sees_tokens(advance(s).state, advance(t).state, forms);
        }
    } else {
        lemma_parse_form_shrinks(s);
        lemma_form_sees_tokens(s, t);
        let form = parse_form(s);
        if form.outcome is Ok {
            lemma_main_loop_sees_tokens(
                form.state,
                parse_form(t).state,
                forms.push(form.outcome->Ok_0),
            );
        }
    }
}

/// Spacing does not matter to the parser: over an input into which white
/// space was put between tokens, in any number of places, it reads the same
/// expression.
pub proof fn lemma_expr_ignores_spacing(cur: TokenView, text: Seq<char>, edits: Seq<Insertion>)
    requires
        insertions_between_tokens(text, edits),
    ensures
        same_step(
            parse_expr(LexState { cur, rest: text }),
            parse_expr(LexState { cur, rest: insert_all(text, edits) }),
        ),
{
    lemma_whitespace_transparent(text, edits);
    lemma_expr_sees_tokens(
        LexState { cur, rest: text },
        LexState { cur, rest: insert_all(text, edits) },
    );
}

/// Comments do not matter to the parser: over an input in which a comment
/// was replaced by the newline that ends it, it reads the same expression.
pub proof fn lemma_expr_ignores_comment(
    cur: TokenView,
    before: Seq<char>,
    body: Seq<char>,
    after: Seq<char>,
)
    requires
        between_tokens(
            before + (seq!['#'] + body + seq!['\n']) + after,
            before.len() as int,
        ),
        all_comment_chars(body),
    ensures
        same_step(
            parse_expr(
                LexState { cur, rest: before + (seq!['#'] + body + seq!['\n']) + after },
            ),
            parse_expr(LexState { cur, rest: before + seq!['\n'] + after }),
        ),
{
    lemma_comment_equivalent(before, body, after);
    lemma_expr_sees_tokens(
        LexState { cur, rest: before + (seq!['#'] + body + seq!['\n']) + after },
        LexState { cur, rest: before + seq!['\n'] + after },
    );
}

} // verus!
