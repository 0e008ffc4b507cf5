//! What the parser computes, as functions on lexer states.
//!
//! ```text
//! primary    := number | identifier_expr | '(' expr ')'
//! identifier_expr
//!            := Identifier
//!             | Identifier '(' [ expr (',' expr)* ] ')'
//! expr       := primary binop_rhs(0)
//! binop_rhs(min)
//!            := ( op primary binop_rhs(prec(op) + 1)? )*    -- prec(op) >= min
//! prototype  := Identifier '(' Identifier* ')'
//! definition := 'def' prototype expr
//! external   := 'extern' prototype
//! top_level  := expr
//! ```
//!
//! Each function takes the state in which the production starts, the current
//! token being its first, and gives the tree it reads, or the error it stops
//! at, together with the state in which it stops.
use vstd::prelude::*;
use crate::ast::{ExprView, FormKind, FormView};
use crate::error::SyntaxError;
use crate::lexer::{
    advance, done, failed, lemma_advance_shrinks, lemma_lex_rest, measure, LexState, Step,
};
use crate::token::TokenView;

verus! {

/// The binding strength of a token as a binary operator, higher binding
/// tighter; -1 for a token that is none.
pub open spec fn precedence(tok: TokenView) -> int {
    match tok {
        TokenView::Char(c) => if c == '<' {
            10
        } else if c == '+' {
            20
        } else if c == '-' {
            30
        } else if c == '*' {
            40
        } else {
            -1
        },
        _ => -1,
    }
}

/// `number`: the current token, which must be a number; any other is an
/// `ExpectedNumber` error.
pub open spec fn parse_number(s: LexState) -> Step<ExprView> {
    match s.cur {
        TokenView::Number(text) => {
            let a = advance(s);
            match a.outcome {
                Err(e) => failed(e, a.state),
                Ok(_) => done(ExprView::Number(text), a.state),
            }
        },
        _ => failed(SyntaxError::ExpectedNumber, s),
    }
}

/// `primary`: a number, a variable, a call, or an expression in
/// parentheses. A current token that starts none of them is an
/// `ExpectedExpression` error.
pub open spec fn parse_primary(s: LexState) -> Step<ExprView>
    decreases measure(s), 2int,
{
    match s.cur {
        TokenView::Identifier(_) => parse_identifier_expr(s),
        TokenView::Number(_) => parse_number(s),
        TokenView::Char(c) => if c == '(' {
            parse_paren_expr(s)
        } else {
            failed(SyntaxError::ExpectedExpression, s)
        },
        _ => failed(SyntaxError::ExpectedExpression, s),
    }
}

/// `'(' expr ')'`. A current token other than `(` is an
/// `ExpectedExpression` error, a missing `)` an `ExpectedCloseParen`.
pub open spec fn parse_paren_expr(s: LexState) -> Step<ExprView>
    decreases measure(s), 1int,
{
    if s.cur != TokenView::Char('(') {
        failed(SyntaxError::ExpectedExpression, s)
    } else {
        proof {
            lemma_advance_shrinks(s);
        }
        let a = advance(s);
        if a.outcome is Err {
            failed(a.outcome->Err_0, a.state)
        } else {
            let inner = parse_expr(a.state);
            if inner.outcome is Err {
                inner
            } else if inner.state.cur != TokenView::Char(')') {
                failed(SyntaxError::ExpectedCloseParen, inner.state)
            } else {
                let b = advance(inner.state);
                if b.outcome is Err {
                    failed(b.outcome->Err_0, b.state)
                } else {
                    done(inner.outcome->Ok_0, b.state)
                }
            }
        }
    }
}

/// `identifier_expr`: a name alone is a variable; a name followed by `(` is
/// a call. A current token that is no name is an `ExpectedIdentifier` error.
pub open spec fn parse_identifier_expr(s: LexState) -> Step<ExprView>
    decreases measure(s), 1int,
{
    match s.cur {
        TokenView::Identifier(name) => {
            proof {
                lemma_advance_shrinks(s);
                lemma_advance_shrinks(advance(s).state);
            }
            let a = advance(s);
            if a.outcome is Err {
                failed(a.outcome->Err_0, a.state)
            } else if a.state.cur != TokenView::Char('(') {
                done(ExprView::Variable(name), a.state)
            } else {
                let b = advance(a.state);
                if b.outcome is Err {
                    failed(b.outcome->Err_0, b.state)
                } else if b.state.cur == TokenView::Char(')') {
                    finish_call(name, Seq::empty(), b.state)
                } else {
                    parse_args(name, Seq::empty(), b.state)
                }
            }
        },
        _ => failed(SyntaxError::ExpectedIdentifier, s),
    }
}

/// The arguments of a call of `callee` from the state `s` on, `args` having
/// been read already: `expr (',' expr)* ')'`. An argument that is followed
/// by neither `,` nor `)` is an `ExpectedArgumentEnd` error.
pub open spec fn parse_args(callee: Seq<char>, args: Seq<ExprView>, s: LexState) -> Step<ExprView>
    decreases measure(s), 4int,
{
    let arg = parse_expr(s);
    if arg.outcome is Err {
        arg
    } else if measure(arg.state) >= measure(s) {
        // never so: see `lemma_parse_expr_shrinks`
        arbitrary()
    } else {
        let args = args.push(arg.outcome->Ok_0);
        if arg.state.cur == TokenView::Char(')') {
            finish_call(callee, args, arg.state)
        } else if arg.state.cur != TokenView::Char(',') {
            failed(SyntaxError::ExpectedArgumentEnd, arg.state)
        } else {
            proof {
                lemma_advance_shrinks(arg.state);
            }
            let a = advance(arg.state);
            if a.outcome is Err {
                failed(a.outcome->Err_0, a.state)
            } else {
                parse_args(callee, args, a.state)
            }
        }
    }
}

/// The end of a call: the current token is the closing `)`.
pub open spec fn finish_call(callee: Seq<char>, args: Seq<ExprView>, s: LexState) -> Step<
    ExprView,
> {
    let a = advance(s);
    if a.outcome is Err {
        failed(a.outcome->Err_0, a.state)
    } else {
        done(ExprView::Call { callee, args }, a.state)
    }
}

/// `expr`: a primary and the binary operators that follow it.
pub open spec fn parse_expr(s: LexState) -> Step<ExprView>
    decreases measure(s), 3int,
{
    let lhs = parse_primary(s);
    if lhs.outcome is Err {
        lhs
    } else if measure(lhs.state) >= measure(s) {
        // never so: see `lemma_parse_primary_shrinks`
        arbitrary()
    } else {
        parse_binary_op_rhs(0, lhs.outcome->Ok_0, lhs.state)
    }
}

/// `binop_rhs`: the operators of precedence `min_precedence` and more that
/// follow the operand `lhs`, each with its right operand.
///
/// An operator binds `lhs` and the primary after it, unless the operator
/// after that primary binds tighter: then the tighter operators are read
/// first, into the right operand. A current token that is as strong as
/// `min_precedence` asks for and is no character is an `UnknownOperation`
/// error; that takes a `min_precedence` below 0.
pub open spec fn parse_binary_op_rhs(min_precedence: int, lhs: ExprView, s: LexState) -> Step<
    ExprView,
>
    decreases measure(s), 0int,
{
    let cur_prec = precedence(s.cur);
    if cur_prec < min_precedence {
        done(lhs, s)
    } else {
        match s.cur {
            TokenView::Char(op) => {
                proof {
                    lemma_advance_shrinks(s);
                }
                let a = advance(s);
                if a.outcome is Err {
                    failed(a.outcome->Err_0, a.state)
                } else {
                    let operand = parse_primary(a.state);
                    if operand.outcome is Err {
                        operand
                    } else if measure(operand.state) >= measure(a.state) {
                        // never so: see `lemma_parse_primary_shrinks`
                        arbitrary()
                    } else {
                        let rhs = if precedence(operand.state.cur) > cur_prec {
                            parse_binary_op_rhs(
                                cur_prec + 1,
                                operand.outcome->Ok_0,
                                operand.state,
                            )
                        } else {
                            operand
                        };
                        if rhs.outcome is Err {
                            rhs
                        } else if measure(rhs.state) > measure(operand.state) {
                            // never so: see `lemma_parse_binary_op_rhs_shrinks`
                            arbitrary()
                        } else {
                            parse_binary_op_rhs(
                                min_precedence,
                                ExprView::Binary(op, Box::new(lhs), Box::new(rhs.outcome->Ok_0)),
                                rhs.state,
                            )
                        }
                    }
                }
            },
            _ => failed(SyntaxError::UnknownOperation, s),
        }
    }
}

/// A primary that is read takes at least one token.
pub proof fn lemma_parse_primary_shrinks(s: LexState)
    ensures
        parse_primary(s).outcome is Ok ==> measure(parse_primary(s).state) < measure(s),
    decreases measure(s), 2int,
{
    lemma_advance_shrinks(s);
    match s.cur {
        TokenView::Identifier(_) => lemma_parse_identifier_expr_shrinks(s),
        TokenView::Char(c) => if c == '(' {
            lemma_parse_paren_expr_shrinks(s);
        },
        _ => {},
    }
}

/// An expression in parentheses that is read takes at least one token.
pub proof fn lemma_parse_paren_expr_shrinks(s: LexState)
    ensures
        parse_paren_expr(s).outcome is Ok ==> measure(parse_paren_expr(s).state) < measure(s),
    decreases measure(s), 1int,
{
    if s.cur == TokenView::Char('(') {
        lemma_advance_shrinks(s);
        let a = advance(s);
        if a.outcome is Ok {
            lemma_parse_expr_shrinks(a.state);
            lemma_advance_shrinks(parse_expr(a.state).state);
        }
    }
}

/// A variable or a call that is read takes at least one token.
pub proof fn lemma_parse_identifier_expr_shrinks(s: LexState)
    ensures
        parse_identifier_expr(s).outcome is Ok ==> measure(parse_identifier_expr(s).state)
            < measure(s),
    decreases measure(s), 1int,
{
    if s.cur is Identifier {
        lemma_advance_shrinks(s);
        let a = advance(s);
        if a.outcome is Ok && a.state.cur == TokenView::Char('(') {
            lemma_advance_shrinks(a.state);
            let b = advance(a.state);
            if b.outcome is Ok {
                lemma_advance_shrinks(b.state);
                if b.state.cur != TokenView::Char(')') {
                    lemma_parse_args_shrinks(s.cur->Identifier_0, Seq::empty(), b.state);
                }
            }
        }
    }
}

/// An argument list that is read takes at least one token.
pub proof fn lemma_parse_args_shrinks(callee: Seq<char>, args: Seq<ExprView>, s: LexState)
    ensures
        parse_args(callee, args, s).outcome is Ok ==> measure(parse_args(callee, args, s).state)
            < measure(s),
    decreases measure(s), 4int,
{
    lemma_parse_expr_shrinks(s);
    let arg = parse_expr(s);
    if arg.outcome is Ok {
        lemma_advance_shrinks(arg.state);
        if arg.state.cur == TokenView::Char(',') {
            let a = advance(arg.state);
            if a.outcome is Ok {
                lemma_parse_args_shrinks(callee, args.push(arg.outcome->Ok_0), a.state);
            }
        }
    }
}

/// An expression that is read takes at least one token.
pub proof fn lemma_parse_expr_shrinks(s: LexState)
    ensures
        parse_expr(s).outcome is Ok ==> measure(parse_expr(s).state) < measure(s),
    decreases measure(s), 3int,
{
    lemma_parse_primary_shrinks(s);
    let lhs = parse_primary(s);
    if lhs.outcome is Ok {
        lemma_parse_binary_op_rhs_shrinks(0, lhs.outcome->Ok_0, lhs.state);
    }
}

/// Reading operators and their operands never adds input.
pub proof fn lemma_parse_binary_op_rhs_shrinks(min_precedence: int, lhs: ExprView, s: LexState)
    ensures
        parse_binary_op_rhs(min_precedence, lhs, s).outcome is Ok ==> measure(
            parse_binary_op_rhs(min_precedence, lhs, s).state,
        ) <= measure(s),
    decreases measure(s), 0int,
{
    let cur_prec = precedence(s.cur);
    if cur_prec >= min_precedence && s.cur is Char {
        let op = s.cur->Char_0;
        lemma_advance_shrinks(s);
        let a = advance(s);
        if a.outcome is Ok {
            lemma_parse_primary_shrinks(a.state);
            let operand = parse_primary(a.state);
            if operand.outcome is Ok {
                if precedence(operand.state.cur) > cur_prec {
                    lemma_parse_binary_op_rhs_shrinks(
                        cur_prec + 1,
                        operand.outcome->Ok_0,
                        operand.state,
                    );
                }
                let rhs = if precedence(operand.state.cur) > cur_prec {
                    parse_binary_op_rhs(cur_prec + 1, operand.outcome->Ok_0, operand.state)
                } else {
                    operand
                };
                if rhs.outcome is Ok {
                    lemma_parse_binary_op_rhs_shrinks(
                        min_precedence,
                        ExprView::Binary(op, Box::new(lhs), Box::new(rhs.outcome->Ok_0)),
                        rhs.state,
                    );
                }
            }
        }
    }
}

/// `prototype`: a name, `(`, parameter names with nothing between them but
/// white space, `)`. The errors are `ExpectedFunctionName`,
/// `ExpectedPrototypeOpen` and `ExpectedPrototypeClose`.
pub open spec fn parse_prototype(s: LexState) -> Step<ExprView> {
    match s.cur {
        TokenView::Identifier(func_name) => {
            let a = advance(s);
            if a.outcome is Err {
                failed(a.outcome->Err_0, a.state)
            } else if a.state.cur != TokenView::Char('(') {
                failed(SyntaxError::ExpectedPrototypeOpen, a.state)
            } else {
                parse_params(func_name, Seq::empty(), a.state)
            }
        },
        _ => failed(SyntaxError::ExpectedFunctionName, s),
    }
}

/// The parameters of the prototype of `func_name` that follow the current
/// token, `arg_names` having been read already, and the closing `)`.
pub open spec fn parse_params(func_name: Seq<char>, arg_names: Seq<Seq<char>>, s: LexState) -> Step<
    ExprView,
>
    decreases s.rest.len(),
{
    let a = advance(s);
    if a.outcome is Err {
        failed(a.outcome->Err_0, a.state)
    } else {
        match a.state.cur {
            TokenView::Identifier(name) => {
                proof {
                    lemma_lex_rest(s.rest);
                }
                parse_params(func_name, arg_names.push(name), a.state)
            },
            _ => if a.state.cur != TokenView::Char(')') {
                failed(SyntaxError::ExpectedPrototypeClose, a.state)
            } else {
                let b = advance(a.state);
                if b.outcome is Err {
                    failed(b.outcome->Err_0, b.state)
                } else {
                    done(ExprView::Prototype { func_name, arg_names }, b.state)
                }
            },
        }
    }
}

/// `definition`: the token `def`, which is passed over unexamined, a
/// prototype and an expression, the body.
pub open spec fn parse_definition(s: LexState) -> Step<ExprView> {
    let a = advance(s);
    if a.outcome is Err {
        failed(a.outcome->Err_0, a.state)
    } else {
        let proto = parse_prototype(a.state);
        if proto.outcome is Err {
            proto
        } else {
            let body = parse_expr(proto.state);
            if body.outcome is Err {
                body
            } else {
                done(
                    ExprView::Function {
                        prototype: Box::new(proto.outcome->Ok_0),
                        body: Box::new(body.outcome->Ok_0),
                    },
                    body.state,
                )
            }
        }
    }
}

/// `external`: the token `extern`, which is passed over unexamined, and a
/// prototype.
pub open spec fn parse_extern(s: LexState) -> Step<ExprView> {
    let a = advance(s);
    if a.outcome is Err {
        failed(a.outcome->Err_0, a.state)
    } else {
        parse_prototype(a.state)
    }
}

/// The prototype of the function that wraps a top-level expression: no name
/// and no parameters.
pub open spec fn anonymous_prototype() -> ExprView {
    ExprView::Prototype { func_name: Seq::empty(), arg_names: Seq::empty() }
}

/// `top_level`: an expression, wrapped as the body of an anonymous function.
pub open spec fn parse_top_level(s: LexState) -> Step<ExprView> {
    let body = parse_expr(s);
    if body.outcome is Err {
        body
    } else {
        done(
            ExprView::Function {
                prototype: Box::new(anonymous_prototype()),
                body: Box::new(body.outcome->Ok_0),
            },
            body.state,
        )
    }
}

/// A step that read a tree, as a step that read a form of kind `kind`.
pub open spec fn as_form(kind: FormKind, step: Step<ExprView>) -> Step<FormView> {
    match step.outcome {
        Ok(tree) => done(FormView { kind, tree }, step.state),
        Err(e) => failed(e, step.state),
    }
}

/// The top-level form that starts at the current token: a definition at
/// `def`, an extern at `extern`, else an expression.
pub open spec fn parse_form(s: LexState) -> Step<FormView> {
    match s.cur {
        TokenView::Def => as_form(FormKind::Definition, parse_definition(s)),
        TokenView::Extern => as_form(FormKind::Extern, parse_extern(s)),
        _ => as_form(FormKind::TopLevelExpr, parse_top_level(s)),
    }
}

/// How a run over the input ended.
pub struct Run {
    /// The forms that were parsed, in order.
    pub forms: Seq<FormView>,
    /// The error that stopped the run, if it did not reach the end of the
    /// input.
    pub error: Option<SyntaxError>,
    /// The lexer state at the end of the run.
    pub state: LexState,
}

/// The run from state `s` on, `forms` having been parsed already: forms are
/// parsed one after another until the end of the input or the first error;
/// a `;` between forms is passed over.
pub open spec fn main_loop(s: LexState, forms: Seq<FormView>) -> Run
    decreases measure(s),
{
    if s.cur is Eof {
        Run { forms, error: None, state: s }
    } else if s.cur == TokenView::Char(';') {
        proof {
            lemma_advance_shrinks(s);
        }
        let a = advance(s);
        if a.outcome is Err {
            Run { forms, error: Some(a.outcome->Err_0), state: a.state }
        } else {
            main_loop(a.state, forms)
        }
    } else {
        proof {
            lemma_parse_form_shrinks(s);
        }
        let form = parse_form(s);
        if form.outcome is Err {
            Run { forms, error: Some(form.outcome->Err_0), state: form.state }
        } else {
            main_loop(form.state, forms.push(form.outcome->Ok_0))
        }
    }
}

/// Reading parameters never adds input.
pub proof fn lemma_parse_params_shrinks(
    func_name: Seq<char>,
    arg_names: Seq<Seq<char>>,
    s: LexState,
)
    ensures
        parse_params(func_name, arg_names, s).outcome is Ok ==> measure(
            parse_params(func_name, arg_names, s).state,
        ) <= measure(s),
    decreases s.rest.len(),
{
    lemma_advance_shrinks(s);
    let a = advance(s);
    if a.outcome is Ok {
        lemma_advance_shrinks(a.state);
        if a.state.cur is Identifier {
            lemma_lex_rest(s.rest);
            lemma_parse_params_shrinks(
                func_name,
                arg_names.push(a.state.cur->Identifier_0),
                a.state,
            );
        }
    }
}

/// A prototype that is read takes at least one token.
pub proof fn lemma_parse_prototype_shrinks(s: LexState)
    ensures
        parse_prototype(s).outcome is Ok ==> measure(parse_prototype(s).state) < measure(s),
{
    if s.cur is Identifier {
        lemma_advance_shrinks(s);
        let a = advance(s);
        if a.outcome is Ok && a.state.cur == TokenView::Char('(') {
            lemma_parse_params_shrinks(s.cur->Identifier_0, Seq::empty(), a.state);
        }
    }
}

/// A form that is read takes at least one token.
pub proof fn lemma_parse_form_shrinks(s: LexState)
    ensures
        parse_form(s).outcome is Ok ==> measure(parse_form(s).state) < measure(s),
{
    lemma_advance_shrinks(s);
    let a = advance(s);
    lemma_parse_prototype_shrinks(a.state);
    lemma_parse_expr_shrinks(parse_prototype(a.state).state);
    lemma_parse_expr_shrinks(s);
}

} // verus!
