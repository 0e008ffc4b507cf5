use kaleidoscope::ast::{Expr, Form, FormKind};
use kaleidoscope::error::SyntaxError;
use kaleidoscope::parser::{Parser, Report};
use kaleidoscope::source::CharSource;
use kaleidoscope::token::Token;

fn parser(input: &str) -> Parser {
    Parser::new(CharSource::new(input.as_bytes().to_vec())).unwrap()
}

fn var(name: &str) -> Expr {
    Expr::Variable(name.to_string())
}

fn num(text: &str) -> Expr {
    Expr::Number(text.to_string())
}

fn bin(op: char, lhs: Expr, rhs: Expr) -> Expr {
    Expr::Binary(op, Box::new(lhs), Box::new(rhs))
}

fn call(callee: &str, args: Vec<Expr>) -> Expr {
    Expr::Call { callee: callee.to_string(), args }
}

fn proto(name: &str, params: &[&str]) -> Expr {
    Expr::Prototype {
        func_name: name.to_string(),
        arg_names: params.iter().map(|p| p.to_string()).collect(),
    }
}

fn func(prototype: Expr, body: Expr) -> Expr {
    Expr::Function { prototype: Box::new(prototype), body: Box::new(body) }
}

fn expr(input: &str) -> Result<Expr, SyntaxError> {
    parser(input).parse_expr()
}

#[test]
fn new_parser_holds_first_token() {
    let p = parser("  foo bar");
    assert_eq!(p.lexer.cur_tok, Token::Identifier("foo".to_string()));
    assert_eq!(p.lexer.last_char, ' ');
    assert_eq!(parser("").lexer.cur_tok, Token::Eof);
}

#[test]
fn new_parser_fails_on_invalid_first_number() {
    assert!(matches!(
        Parser::new(CharSource::new(b"1.2.3".to_vec())),
        Err(SyntaxError::InvalidNumber)
    ));
}

#[test]
fn primary_number() {
    let mut p = parser("42 rest");
    assert_eq!(p.parse_primary(), Ok(num("42")));
    assert_eq!(p.lexer.cur_tok, Token::Identifier("rest".to_string()));
}

#[test]
fn primary_variable() {
    let mut p = parser("x + 1");
    assert_eq!(p.parse_primary(), Ok(var("x")));
    assert_eq!(p.lexer.cur_tok, Token::Char('+'));
}

#[test]
fn primary_call_without_arguments() {
    let mut p = parser("f() ;");
    assert_eq!(p.parse_primary(), Ok(call("f", vec![])));
    assert_eq!(p.lexer.cur_tok, Token::Char(';'));
}

#[test]
fn primary_call_with_arguments() {
    let mut p = parser("f(a, 2, g(b) * c);");
    assert_eq!(
        p.parse_primary(),
        Ok(call("f", vec![var("a"), num("2"), bin('*', call("g", vec![var("b")]), var("c"))]))
    );
    assert_eq!(p.lexer.cur_tok, Token::Char(';'));
}

#[test]
fn primary_parenthesised() {
    let mut p = parser("((x)) y");
    assert_eq!(p.parse_primary(), Ok(var("x")));
    assert_eq!(p.lexer.cur_tok, Token::Identifier("y".to_string()));
}

#[test]
fn primary_rejects_other_tokens() {
    for bad in ["", ")", ";", "+ 1", "def", "extern", ","] {
        assert_eq!(parser(bad).parse_primary(), Err(SyntaxError::ExpectedExpression), "{}", bad);
    }
}

#[test]
fn primary_error_leaves_the_token() {
    let mut p = parser(") x");
    assert_eq!(p.parse_primary(), Err(SyntaxError::ExpectedExpression));
    assert_eq!(p.lexer.cur_tok, Token::Char(')'));
}

#[test]
fn number_parser_wants_a_number() {
    assert_eq!(parser("x").parse_number(), Err(SyntaxError::ExpectedNumber));
    assert_eq!(parser("7").parse_number(), Ok(num("7")));
}

#[test]
fn identifier_parser_wants_a_name() {
    assert_eq!(parser("7").parse_identifier_expr(), Err(SyntaxError::ExpectedIdentifier));
    assert_eq!(parser("x").parse_identifier_expr(), Ok(var("x")));
}

#[test]
fn paren_parser_wants_an_open_paren() {
    assert_eq!(parser("x)").parse_paren_expr(), Err(SyntaxError::ExpectedExpression));
    assert_eq!(parser("(x)").parse_paren_expr(), Ok(var("x")));
}

#[test]
fn missing_close_paren() {
    assert_eq!(expr("(a + b"), Err(SyntaxError::ExpectedCloseParen));
    assert_eq!(expr("(a + b;"), Err(SyntaxError::ExpectedCloseParen));
    assert_eq!(expr("(a b)"), Err(SyntaxError::ExpectedCloseParen));
}

#[test]
fn bad_argument_list() {
    assert_eq!(expr("f(a b)"), Err(SyntaxError::ExpectedArgumentEnd));
    assert_eq!(expr("f(a"), Err(SyntaxError::ExpectedArgumentEnd));
    assert_eq!(expr("f(a;"), Err(SyntaxError::ExpectedArgumentEnd));
    assert_eq!(expr("f(a,)"), Err(SyntaxError::ExpectedExpression));
    assert_eq!(expr("f(,a)"), Err(SyntaxError::ExpectedExpression));
    assert_eq!(expr("f("), Err(SyntaxError::ExpectedExpression));
}

#[test]
fn invalid_number_inside_expression() {
    assert_eq!(expr("a + 1x"), Err(SyntaxError::InvalidNumber));
    assert_eq!(expr("f(1.2.3)"), Err(SyntaxError::InvalidNumber));
    assert_eq!(expr("(."), Err(SyntaxError::InvalidNumber));
}

#[test]
fn operand_missing_after_operator() {
    assert_eq!(expr("a +"), Err(SyntaxError::ExpectedExpression));
    assert_eq!(expr("a + ;"), Err(SyntaxError::ExpectedExpression));
    assert_eq!(expr("a + * b"), Err(SyntaxError::ExpectedExpression));
}

#[test]
fn expression_stops_at_unknown_operator() {
    let mut p = parser("a / b");
    assert_eq!(p.parse_expr(), Ok(var("a")));
    assert_eq!(p.lexer.cur_tok, Token::Char('/'));
}

#[test]
fn precedence_table() {
    for (text, prec) in [("<", 10), ("+", 20), ("-", 30), ("*", 40), ("/", -1), (";", -1), ("x", -1), ("1", -1), ("", -1), ("def", -1), ("(", -1)] {
        assert_eq!(parser(text).get_tok_precedence(), prec, "{:?}", text);
    }
}

#[test]
fn equal_operators_group_to_the_left() {
    for op in ['<', '+', '-', '*'] {
        let text = format!("a {} b {} c", op, op);
        assert_eq!(expr(&text), Ok(bin(op, bin(op, var("a"), var("b")), var("c"))), "{}", text);
    }
}

#[test]
fn precedence_decides_the_grouping_of_every_pair() {
    let table = [('<', 10), ('+', 20), ('-', 30), ('*', 40)];
    for (op1, p1) in table {
        for (op2, p2) in table {
            let text = format!("a {} b {} c;", op1, op2);
            let expected = if p1 >= p2 {
                bin(op2, bin(op1, var("a"), var("b")), var("c"))
            } else {
                bin(op1, var("a"), bin(op2, var("b"), var("c")))
            };
            assert_eq!(expr(&text), Ok(expected), "{}", text);
        }
    }
}

#[test]
fn minus_binds_tighter_than_plus() {
    assert_eq!(expr("a + b - c"), Ok(bin('+', var("a"), bin('-', var("b"), var("c")))));
    assert_eq!(expr("a - b + c"), Ok(bin('+', bin('-', var("a"), var("b")), var("c"))));
}

#[test]
fn longer_chain() {
    // a < b + c * d - e  ==  a < (b + ((c * d) - e))
    assert_eq!(
        expr("a < b + c * d - e"),
        Ok(bin(
            '<',
            var("a"),
            bin('+', var("b"), bin('-', bin('*', var("c"), var("d")), var("e")))
        ))
    );
    // a * b + c < d  ==  ((a * b) + c) < d
    assert_eq!(
        expr("a * b + c < d"),
        Ok(bin('<', bin('+', bin('*', var("a"), var("b")), var("c")), var("d")))
    );
}

#[test]
fn binary_rhs_with_threshold() {
    let mut p = parser("+ b * c < d");
    // only operators of precedence 20 and more are taken
    assert_eq!(
        p.parse_binary_op_rhs(20, var("a")),
        Ok(bin('+', var("a"), bin('*', var("b"), var("c"))))
    );
    assert_eq!(p.lexer.cur_tok, Token::Char('<'));
}

#[test]
fn binary_rhs_below_threshold_returns_lhs() {
    let mut p = parser("+ b");
    assert_eq!(p.parse_binary_op_rhs(21, var("a")), Ok(var("a")));
    assert_eq!(p.lexer.cur_tok, Token::Char('+'));
}

#[test]
fn binary_rhs_unknown_operation() {
    assert_eq!(parser("").parse_binary_op_rhs(-1, var("a")), Err(SyntaxError::UnknownOperation));
    assert_eq!(parser("x").parse_binary_op_rhs(-5, var("a")), Err(SyntaxError::UnknownOperation));
}

#[test]
fn binary_rhs_negative_threshold_takes_any_character() {
    let mut p = parser("/ b ;");
    assert_eq!(p.parse_binary_op_rhs(-1, var("a")), Err(SyntaxError::ExpectedExpression));
}

#[test]
fn parse_is_a_function_of_the_remaining_input() {
    let mut p = parser("zzz a + b * c; rest");
    let mut q = parser("a+b  *c ;other");
    assert_eq!(p.parse_primary(), Ok(var("zzz")));
    let mut q2 = parser("a + b * c; rest");
    assert_eq!(p.parse_expr(), q2.parse_expr());
    assert_eq!(p.lexer.cur_tok, q2.lexer.cur_tok);
    assert_eq!(q.parse_expr(), parser("a + b * c;").parse_expr());
}

#[test]
fn prototype() {
    let mut p = parser("foo(a b c) x");
    assert_eq!(p.parse_prototype(), Ok(proto("foo", &["a", "b", "c"])));
    assert_eq!(p.lexer.cur_tok, Token::Identifier("x".to_string()));
    assert_eq!(parser("f()").parse_prototype(), Ok(proto("f", &[])));
}

#[test]
fn prototype_errors() {
    assert_eq!(parser("(x)").parse_prototype(), Err(SyntaxError::ExpectedFunctionName));
    assert_eq!(parser("1(x)").parse_prototype(), Err(SyntaxError::ExpectedFunctionName));
    assert_eq!(parser("").parse_prototype(), Err(SyntaxError::ExpectedFunctionName));
    assert_eq!(parser("f x").parse_prototype(), Err(SyntaxError::ExpectedPrototypeOpen));
    assert_eq!(parser("f").parse_prototype(), Err(SyntaxError::ExpectedPrototypeOpen));
    assert_eq!(parser("f(x,y)").parse_prototype(), Err(SyntaxError::ExpectedPrototypeClose));
    assert_eq!(parser("f(x").parse_prototype(), Err(SyntaxError::ExpectedPrototypeClose));
    assert_eq!(parser("f(x 1)").parse_prototype(), Err(SyntaxError::ExpectedPrototypeClose));
    assert_eq!(parser("f(x 1a)").parse_prototype(), Err(SyntaxError::InvalidNumber));
}

#[test]
fn prototype_with_commas_stops_at_the_comma() {
    let mut p = parser("foo(x,y)");
    assert_eq!(p.parse_prototype(), Err(SyntaxError::ExpectedPrototypeClose));
    assert_eq!(p.lexer.cur_tok, Token::Char(','));
}

#[test]
fn definition() {
    let mut p = parser("def sq(x) x * x;");
    assert_eq!(
        p.parse_definition(),
        Ok(func(proto("sq", &["x"]), bin('*', var("x"), var("x"))))
    );
    assert_eq!(p.lexer.cur_tok, Token::Char(';'));
    assert_eq!(parser("def 1").parse_definition(), Err(SyntaxError::ExpectedFunctionName));
    assert_eq!(parser("def f()").parse_definition(), Err(SyntaxError::ExpectedExpression));
}

#[test]
fn extern_form() {
    let mut p = parser("extern cos(x);");
    assert_eq!(p.parse_extern(), Ok(proto("cos", &["x"])));
    assert_eq!(p.lexer.cur_tok, Token::Char(';'));
}

#[test]
fn top_level_wraps_in_anonymous_function() {
    assert_eq!(
        parser("f(1)").parse_top_level(),
        Ok(func(proto("", &[]), call("f", vec![num("1")])))
    );
    assert_eq!(parser(")").parse_top_level(), Err(SyntaxError::ExpectedExpression));
}

#[test]
fn handlers_tag_their_forms() {
    assert_eq!(
        parser("def f() 1").handle_definition(),
        Ok(Form { kind: FormKind::Definition, tree: func(proto("f", &[]), num("1")) })
    );
    assert_eq!(
        parser("extern f()").handle_extern(),
        Ok(Form { kind: FormKind::Extern, tree: proto("f", &[]) })
    );
    assert_eq!(
        parser("x").handle_top_level_expression(),
        Ok(Form { kind: FormKind::TopLevelExpr, tree: func(proto("", &[]), var("x")) })
    );
    assert_eq!(parser("def").handle_definition(), Err(SyntaxError::ExpectedFunctionName));
}

#[test]
fn main_loop_on_empty_input() {
    assert_eq!(parser("").main_loop(), Report { forms: vec![], error: None });
    assert_eq!(parser(" ;;; # nothing\n ; ").main_loop(), Report { forms: vec![], error: None });
}

#[test]
fn main_loop_reads_forms_in_order() {
    let mut p = parser("def id(x) x; extern sin(a); id(sin(1)) ; 2 3");
    let report = p.main_loop();
    assert_eq!(report.error, None);
    let kinds: Vec<FormKind> = report.forms.iter().map(|f| f.kind).collect();
    assert_eq!(
        kinds,
        vec![
            FormKind::Definition,
            FormKind::Extern,
            FormKind::TopLevelExpr,
            FormKind::TopLevelExpr,
            FormKind::TopLevelExpr
        ]
    );
    assert_eq!(report.forms[0].tree, func(proto("id", &["x"]), var("x")));
    assert_eq!(report.forms[1].tree, proto("sin", &["a"]));
    assert_eq!(
        report.forms[2].tree,
        func(proto("", &[]), call("id", vec![call("sin", vec![num("1")])]))
    );
    assert_eq!(report.forms[3].tree, func(proto("", &[]), num("2")));
    assert_eq!(report.forms[4].tree, func(proto("", &[]), num("3")));
    assert_eq!(p.lexer.cur_tok, Token::Eof);
}

#[test]
fn main_loop_stops_at_first_error() {
    let mut p = parser("1; def f(x) x; ) ; 2;");
    let report = p.main_loop();
    assert_eq!(report.error, Some(SyntaxError::ExpectedExpression));
    assert_eq!(report.forms.len(), 2);
    assert_eq!(report.forms[1].kind, FormKind::Definition);
    assert_eq!(p.lexer.cur_tok, Token::Char(')'));
}

#[test]
fn main_loop_reports_lexical_error_after_semicolon() {
    let report = parser("1; 2x").main_loop();
    assert_eq!(report.error, Some(SyntaxError::InvalidNumber));
    assert_eq!(report.forms.len(), 1);
}

#[test]
fn main_loop_returns_at_eof_without_more_parsing() {
    let mut p = parser("4;");
    let report = p.main_loop();
    assert_eq!(report.forms.len(), 1);
    assert_eq!(report.error, None);
    assert_eq!(p.lexer.cur_tok, Token::Eof);
    let again = p.main_loop();
    assert_eq!(again, Report { forms: vec![], error: None });
}

#[test]
fn acknowledgments() {
    assert_eq!(FormKind::Definition.acknowledgment(), "Parsed a function definition.");
    assert_eq!(FormKind::Extern.acknowledgment(), "Parsed an extern");
    assert_eq!(FormKind::TopLevelExpr.acknowledgment(), "Parsed a top-level expr");
}

#[test]
fn diagnostics() {
    assert_eq!(SyntaxError::InvalidNumber.message(), "Could not get token");
    assert_eq!(
        SyntaxError::ExpectedExpression.message(),
        "unknown token when expecting an expression"
    );
    assert_eq!(SyntaxError::ExpectedNumber.message(), "Expected a number");
    assert_eq!(SyntaxError::ExpectedIdentifier.message(), "expected identifier");
    assert_eq!(SyntaxError::ExpectedCloseParen.message(), "expected ')'");
    assert_eq!(
        SyntaxError::ExpectedArgumentEnd.message(),
        "Expected ')' or ',' in argument list"
    );
    assert_eq!(SyntaxError::UnknownOperation.message(), "Unknown operation");
    assert_eq!(SyntaxError::ExpectedFunctionName.message(), "Expected ");
    assert_eq!(SyntaxError::ExpectedPrototypeOpen.message(), "Expected a '(' in prototype");
    assert_eq!(SyntaxError::ExpectedPrototypeClose.message(), "Expected '(' in prototpye");
}

#[test]
fn number_literal_round_trips() {
    for text in ["0", "4", "2.5", "1e3", "0.125", "123456789"] {
        let value: f64 = text.parse().unwrap();
        match parser(text).parse_primary() {
            Ok(Expr::Number(n)) => {
                assert_eq!(n, text);
                assert_eq!(n.parse::<f64>().unwrap(), value);
            }
            other => panic!("{:?}", other),
        }
    }
}
