//! The recursive-descent parser.
use vstd::prelude::*;
use crate::ast::{
    expr_result_view, expr_views, form_result_view, form_views, name_views, Expr, ExprView, Form,
    FormKind,
};
use crate::error::SyntaxError;
use crate::grammar;
use crate::lexer::{advance, lemma_advance_shrinks, lemma_lex_rest, measure, LexState, Lexer};
use crate::source::CharSource;
use crate::token::{Token, TokenView};

verus! {

/// A parser over a lexer whose current token is the next one to be parsed.
pub struct Parser {
    pub lexer: Lexer,
}

impl View for Parser {
    type V = LexState;

    open spec fn view(&self) -> LexState {
        self.lexer@
    }
}

impl Parser {
    /// A parser over `source`, with the first token read.
    pub fn new(source: CharSource) -> (r: Result<Parser, SyntaxError>)
        ensures
            match r {
                Ok(parser) => {
                    &&& advance(initial_state(source)).outcome is Ok
                    &&& parser@ == advance(initial_state(source)).state
                },
                Err(e) => advance(initial_state(source)).outcome == Err::<(), SyntaxError>(e),
            },
    {
        let mut l = Lexer::new(source);
        match l.get_next_tok() {
            Ok(()) => Ok(Parser { lexer: l }),
            Err(e) => Err(e),
        }
    }

    /// `primary`: a number, a variable, a call, or an expression in
    /// parentheses. Any other current token is an `ExpectedExpression` error.
    pub fn parse_primary(&mut self) -> (r: Result<Expr, SyntaxError>)
        ensures
            final(self)@ == grammar::parse_primary(old(self)@).state,
            expr_result_view(r) == grammar::parse_primary(old(self)@).outcome,
        decreases measure(old(self)@), 2int,
    {
        match self.lexer.cur_tok {
            Token::Identifier(_) => self.parse_identifier_expr(),
            Token::Number(_) => self.parse_number(),
            Token::Char('(') => self.parse_paren_expr(),
            _ => Err(SyntaxError::ExpectedExpression),
        }
    }

    /// `number`: takes the current token, which must be a number; any other
    /// is an `ExpectedNumber` error.
    pub fn parse_number(&mut self) -> (r: Result<Expr, SyntaxError>)
        ensures
            final(self)@ == grammar::parse_number(old(self)@).state,
            expr_result_view(r) == grammar::parse_number(old(self)@).outcome,
    {
        let res = match &self.lexer.cur_tok {
            Token::Number(text) => Expr::Number(text.clone()),
            _ => {
                return Err(SyntaxError::ExpectedNumber);
            },
        };
        match self.lexer.get_next_tok() {
            Ok(()) => Ok(res),
            Err(e) => Err(e),
        }
    }

    /// `'(' expr ')'`. A current token other than `(` is an
    /// `ExpectedExpression` error, a missing `)` an `ExpectedCloseParen`.
    pub fn parse_paren_expr(&mut self) -> (r: Result<Expr, SyntaxError>)
        ensures
            final(self)@ == grammar::parse_paren_expr(old(self)@).state,
            expr_result_view(r) == grammar::parse_paren_expr(old(self)@).outcome,
        decreases measure(old(self)@), 1int,
    {
        if !self.lexer.cur_tok.is_char('(') {
            return Err(SyntaxError::ExpectedExpression);
        }
        proof {
            lemma_advance_shrinks(self@);
        }
        match self.lexer.get_next_tok() {
            Ok(()) => {},
            Err(e) => {
                return Err(e);
            },
        }
        let expr = match self.parse_expr() {
            Ok(expr) => expr,
            Err(e) => {
                return Err(e);
            },
        };
        if !self.lexer.cur_tok.is_char(')') {
            return Err(SyntaxError::ExpectedCloseParen);
        }
        match self.lexer.get_next_tok() {
            Ok(()) => Ok(expr),
            Err(e) => Err(e),
        }
    }

    /// `identifier_expr`: a name alone is a variable; a name followed by `(`
    /// starts a call, whose arguments are expressions separated by `,`. A
    /// current token that is no name is an `ExpectedIdentifier` error.
    pub fn parse_identifier_expr(&mut self) -> (r: Result<Expr, SyntaxError>)
        ensures
            final(self)@ == grammar::parse_identifier_expr(old(self)@).state,
            expr_result_view(r) == grammar::parse_identifier_expr(old(self)@).outcome,
        decreases measure(old(self)@), 1int,
    {
        let id_name = match &self.lexer.cur_tok {
            Token::Identifier(name) => name.clone(),
            _ => {
                return Err(SyntaxError::ExpectedIdentifier);
            },
        };
        proof {
            lemma_advance_shrinks(self@);
            lemma_advance_shrinks(advance(self@).state);
        }
        match self.lexer.get_next_tok() {
            Ok(()) => {},
            Err(e) => {
                return Err(e);
            },
        }
        if !self.lexer.cur_tok.is_char('(') {
            return Ok(Expr::Variable(id_name));
        }
        match self.lexer.get_next_tok() {
            Ok(()) => {},
            Err(e) => {
                return Err(e);
            },
        }
        let mut args: Vec<Expr> = Vec::new();
        if !self.lexer.cur_tok.is_char(')') {
            let ghost start = self@;
            loop
                invariant_except_break
                    grammar::parse_args(id_name@, expr_views(args@), self@) == grammar::parse_args(
                        id_name@,
                        Seq::empty(),
                        start,
                    ),
                invariant
                    measure(self@) <= measure(start),
                    measure(start) < measure(old(self)@),
                    grammar::parse_identifier_expr(old(self)@) == grammar::parse_args(
                        id_name@,
                        Seq::empty(),
                        start,
                    ),
                ensures
                    self@.cur == TokenView::Char(')'),
                    grammar::finish_call(id_name@, expr_views(args@), self@) == grammar::parse_args(
                        id_name@,
                        Seq::empty(),
                        start,
                    ),
                decreases measure(self@),
            {
                proof {
                    grammar::lemma_parse_expr_shrinks(self@);
                }
                let ghost before = args@;
                let arg = match self.parse_expr() {
                    Ok(arg) => arg,
                    Err(e) => {
                        return Err(e);
                    },
                };
                args.push(arg);
                assert(expr_views(args@) == expr_views(before).push(arg@)) by {
                    assert(args@.drop_last() =~= before);
                }
                if self.lexer.cur_tok.is_char(')') {
                    break ;
                }
                if !self.lexer.cur_tok.is_char(',') {
                    return Err(SyntaxError::ExpectedArgumentEnd);
                }
                proof {
                    lemma_advance_shrinks(self@);
                }
                match self.lexer.get_next_tok() {
                    Ok(()) => {},
                    Err(e) => {
                        return Err(e);
                    },
                }
            }
        }
        match self.lexer.get_next_tok() {
            Ok(()) => Ok(Expr::Call { callee: id_name, args }),
            Err(e) => Err(e),
        }
    }

    /// `expr`: a primary and the binary operators that follow it.
    pub fn parse_expr(&mut self) -> (r: Result<Expr, SyntaxError>)
        ensures
            final(self)@ == grammar::parse_expr(old(self)@).state,
            expr_result_view(r) == grammar::parse_expr(old(self)@).outcome,
        decreases measure(old(self)@), 3int,
    {
        proof {
            grammar::lemma_parse_primary_shrinks(self@);
        }
        let lhs = match self.parse_primary() {
            Ok(lhs) => lhs,
            Err(e) => {
                return Err(e);
            },
        };
        self.parse_binary_op_rhs(0, lhs)
    }

    /// `binop_rhs`: reads the operators of precedence `min_precedence` and
    /// more that follow the operand `lhs`, each with its right operand, and
    /// builds the tree, tighter operators deeper, equal ones to the left.
    pub fn parse_binary_op_rhs(&mut self, min_precedence: i64, lhs: Expr) -> (r: Result<
        Expr,
        SyntaxError,
    >)
        ensures
            final(self)@ == grammar::parse_binary_op_rhs(
                min_precedence as int,
                lhs@,
                old(self)@,
            ).state,
            expr_result_view(r) == grammar::parse_binary_op_rhs(
                min_precedence as int,
                lhs@,
                old(self)@,
            ).outcome,
        decreases measure(old(self)@), 0int,
    {
        let mut left = lhs;
        loop
            invariant
                measure(self@) <= measure(old(self)@),
                grammar::parse_binary_op_rhs(min_precedence as int, left@, self@)
                    == grammar::parse_binary_op_rhs(min_precedence as int, lhs@, old(self)@),
            decreases measure(self@),
        {
            let cur_prec = self.get_tok_precedence();
            if cur_prec < min_precedence {
                return Ok(left);
            }
            let cur_op = match self.lexer.cur_tok {
                Token::Char(c) => c,
                _ => {
                    return Err(SyntaxError::UnknownOperation);
                },
            };
            proof {
                lemma_advance_shrinks(self@);
                grammar::lemma_parse_primary_shrinks(advance(self@).state);
            }
            match self.lexer.get_next_tok() {
                Ok(()) => {},
                Err(e) => {
                    return Err(e);
                },
            }
            let mut rhs = match self.parse_primary() {
                Ok(rhs) => rhs,
                Err(e) => {
                    return Err(e);
                },
            };
            let next_prec = self.get_tok_precedence();
            if next_prec > cur_prec {
                proof {
                    grammar::lemma_parse_binary_op_rhs_shrinks(cur_prec + 1, rhs@, self@);
                }
                rhs = match self.parse_binary_op_rhs(cur_prec + 1, rhs) {
                    Ok(rhs) => rhs,
                    Err(e) => {
                        return Err(e);
                    },
                };
            }
            left = Expr::Binary(cur_op, Box::new(left), Box::new(rhs));
        }
    }

    /// `prototype`: a name, `(`, parameter names with nothing between them
    /// but white space, `)`.
    pub fn parse_prototype(&mut self) -> (r: Result<Expr, SyntaxError>)
        ensures
            final(self)@ == grammar::parse_prototype(old(self)@).state,
            expr_result_view(r) == grammar::parse_prototype(old(self)@).outcome,
    {
        let func_name = match &self.lexer.cur_tok {
            Token::Identifier(name) => name.clone(),
            _ => {
                return Err(SyntaxError::ExpectedFunctionName);
            },
        };
        match self.lexer.get_next_tok() {
            Ok(()) => {},
            Err(e) => {
                return Err(e);
            },
        }
        if !self.lexer.cur_tok.is_char('(') {
            return Err(SyntaxError::ExpectedPrototypeOpen);
        }
        let ghost start = self@;
        let mut arg_names: Vec<String> = Vec::new();
        assert(name_views(arg_names@) =~= Seq::<Seq<char>>::empty());
        loop
            invariant_except_break
                grammar::parse_params(func_name@, name_views(arg_names@), self@)
                    == grammar::parse_params(func_name@, Seq::empty(), start),
            invariant
                grammar::parse_prototype(old(self)@) == grammar::parse_params(
                    func_name@,
                    Seq::empty(),
                    start,
                ),
            ensures
                !(self@.cur is Identifier),
                grammar::parse_params(func_name@, Seq::empty(), start) == (if self@.cur
                    != TokenView::Char(')') {
                    crate::lexer::failed(SyntaxError::ExpectedPrototypeClose, self@)
                } else if advance(self@).outcome is Err {
                    crate::lexer::failed(advance(self@).outcome->Err_0, advance(self@).state)
                } else {
                    crate::lexer::done(
                        ExprView::Prototype {
                            func_name: func_name@,
                            arg_names: name_views(arg_names@),
                        },
                        advance(self@).state,
                    )
                }),
            decreases self@.rest.len(),
        {
            proof {
                lemma_lex_rest(self@.rest);
            }
            match self.lexer.get_next_tok() {
                Ok(()) => {},
                Err(e) => {
                    return Err(e);
                },
            }
            let ghost before = arg_names@;
            let name = match &self.lexer.cur_tok {
                Token::Identifier(name) => name.clone(),
                _ => {
                    break ;
                },
            };
            arg_names.push(name);
            assert(name_views(arg_names@) =~= name_views(before).push(name@));
        }
        if !self.lexer.cur_tok.is_char(')') {
            return Err(SyntaxError::ExpectedPrototypeClose);
        }
        match self.lexer.get_next_tok() {
            Ok(()) => Ok(Expr::Prototype { func_name, arg_names }),
            Err(e) => Err(e),
        }
    }

    /// `definition`: passes over the current token, then reads a prototype
    /// and an expression, the body.
    pub fn parse_definition(&mut self) -> (r: Result<Expr, SyntaxError>)
        ensures
            final(self)@ == grammar::parse_definition(old(self)@).state,
            expr_result_view(r) == grammar::parse_definition(old(self)@).outcome,
    {
        match self.lexer.get_next_tok() {
            Ok(()) => {},
            Err(e) => {
                return Err(e);
            },
        }
        let prototype = match self.parse_prototype() {
            Ok(prototype) => prototype,
            Err(e) => {
                return Err(e);
            },
        };
        let body = match self.parse_expr() {
            Ok(body) => body,
            Err(e) => {
                return Err(e);
            },
        };
        Ok(Expr::Function { prototype: Box::new(prototype), body: Box::new(body) })
    }

    /// `external`: passes over the current token, then reads a prototype.
    pub fn parse_extern(&mut self) -> (r: Result<Expr, SyntaxError>)
        ensures
            final(self)@ == grammar::parse_extern(old(self)@).state,
            expr_result_view(r) == grammar::parse_extern(old(self)@).outcome,
    {
        match self.lexer.get_next_tok() {
            Ok(()) => self.parse_prototype(),
            Err(e) => Err(e),
        }
    }

    /// `top_level`: reads an expression and wraps it as the body of a
    /// function without a name and without parameters.
    pub fn parse_top_level(&mut self) -> (r: Result<Expr, SyntaxError>)
        ensures
            final(self)@ == grammar::parse_top_level(old(self)@).state,
            expr_result_view(r) == grammar::parse_top_level(old(self)@).outcome,
    {
        let expr = match self.parse_expr() {
            Ok(expr) => expr,
            Err(e) => {
                return Err(e);
            },
        };
        let arg_names: Vec<String> = Vec::new();
        assert(name_views(arg_names@) =~= Seq::<Seq<char>>::empty());
        let proto = Expr::Prototype { func_name: String::new(), arg_names };
        assert(proto@ == grammar::anonymous_prototype());
        Ok(Expr::Function { prototype: Box::new(proto), body: Box::new(expr) })
    }

    /// Reads forms until the end of the input or the first error, passing
    /// over each `;` between them, and reports the forms in order.
    pub fn main_loop(&mut self) -> (report: Report)
        ensures
            final(self)@ == grammar::main_loop(old(self)@, Seq::empty()).state,
            form_views(report.forms@) == grammar::main_loop(old(self)@, Seq::empty()).forms,
            report.error == grammar::main_loop(old(self)@, Seq::empty()).error,
    {
        let mut forms: Vec<Form> = Vec::new();
        assert(form_views(forms@) =~= Seq::empty());
        loop
            invariant
                grammar::main_loop(self@, form_views(forms@)) == grammar::main_loop(
                    old(self)@,
                    Seq::empty(),
                ),
            decreases measure(self@),
        {
            proof {
                lemma_advance_shrinks(self@);
                grammar::lemma_parse_form_shrinks(self@);
            }
            let ghost before = forms@;
            let handled = match self.lexer.cur_tok {
                Token::Eof => {
                    return Report { forms, error: None };
                },
                Token::Char(';') => {
                    match self.lexer.get_next_tok() {
                        Ok(()) => {},
                        Err(e) => {
                            return Report { forms, error: Some(e) };
                        },
                    }
                    continue ;
                },
                Token::Def => self.handle_definition(),
                Token::Extern => self.handle_extern(),
                _ => self.handle_top_level_expression(),
            };
            match handled {
                Ok(form) => {
                    forms.push(form);
                    assert(form_views(forms@) =~= form_views(before).push(form@));
                },
                Err(e) => {
                    return Report { forms, error: Some(e) };
                },
            }
        }
    }

    /// Reads a definition and reports it.
    pub fn handle_definition(&mut self) -> (r: Result<Form, SyntaxError>)
        ensures
            final(self)@ == grammar::parse_definition(old(self)@).state,
            form_result_view(r) == grammar::as_form(
                FormKind::Definition,
                grammar::parse_definition(old(self)@),
            ).outcome,
    {
        match self.parse_definition() {
            Ok(tree) => Ok(Form { kind: FormKind::Definition, tree }),
            Err(e) => Err(e),
        }
    }

    /// Reads an extern and reports it.
    pub fn handle_extern(&mut self) -> (r: Result<Form, SyntaxError>)
        ensures
            final(self)@ == grammar::parse_extern(old(self)@).state,
            form_result_view(r) == grammar::as_form(
                FormKind::Extern,
                grammar::parse_extern(old(self)@),
            ).outcome,
    {
        match self.parse_extern() {
            Ok(tree) => Ok(Form { kind: FormKind::Extern, tree }),
            Err(e) => Err(e),
        }
    }

    /// Reads a top-level expression and reports it.
    pub fn handle_top_level_expression(&mut self) -> (r: Result<Form, SyntaxError>)
        ensures
            final(self)@ == grammar::parse_top_level(old(self)@).state,
            form_result_view(r) == grammar::as_form(
                FormKind::TopLevelExpr,
                grammar::parse_top_level(old(self)@),
            ).outcome,
    {
        match self.parse_top_level() {
            Ok(tree) => Ok(Form { kind: FormKind::TopLevelExpr, tree }),
            Err(e) => Err(e),
        }
    }

    /// The binding strength of the current token as a binary operator.
    pub fn get_tok_precedence(&self) -> (p: i64)
        ensures
            p == grammar::precedence(self@.cur),
    {
        match self.lexer.cur_tok {
            Token::Char('<') => 10,
            Token::Char('+') => 20,
            Token::Char('-') => 30,
            Token::Char('*') => 40,
            _ => -1,
        }
    }
}

/// What a run over the input came to.
#[derive(Debug, PartialEq)]
pub struct Report {
    /// The forms that were parsed, in order.
    pub forms: Vec<Form>,
    /// The error that stopped the run, if it did not reach the end of the
    /// input.
    pub error: Option<SyntaxError>,
}

/// The state of a lexer that has read nothing of `source` yet.
pub open spec fn initial_state(source: CharSource) -> LexState {
    LexState { cur: TokenView::Eof, rest: source.unread() }
}

} // verus!
