use kaleidoscope::ast::Expr;
use kaleidoscope::calc::{LoopParser, LoopParserString, TestParser};
use kaleidoscope::error::SyntaxError;
use kaleidoscope::source::CharSource;

fn source(input: &str) -> CharSource {
    CharSource::new(input.as_bytes().to_vec())
}

fn num(text: &str) -> Expr {
    Expr::Number(text.to_string())
}

fn bin(op: char, lhs: Expr, rhs: Expr) -> Expr {
    Expr::Binary(op, Box::new(lhs), Box::new(rhs))
}

/// The value of a tree of numbers and the four operations.
fn eval(e: &Expr) -> f64 {
    match e {
        Expr::Number(text) => text.parse().unwrap(),
        Expr::Binary(op, lhs, rhs) => {
            let (l, r) = (eval(lhs), eval(rhs));
            match op {
                '+' => l + r,
                '-' => l - r,
                '*' => l * r,
                '/' => l / r,
                _ => panic!("unknown operator"),
            }
        }
        _ => panic!("not arithmetic"),
    }
}

#[test]
fn test_parser_primes_lookahead() {
    assert_eq!(TestParser::new(source("12")).next_char, '1');
    assert_eq!(TestParser::new(source("")).next_char, '\0');
}

#[test]
fn test_parser_number() {
    let mut p = TestParser::new(source("123  +4"));
    assert_eq!(p.parse_num(), Ok(num("123")));
    assert_eq!(p.next_char, '+');
    let mut q = TestParser::new(source("7"));
    assert_eq!(q.parse(), Ok(num("7")));
    assert_eq!(q.next_char, '\0');
}

#[test]
fn test_parser_number_takes_any_first_character() {
    assert_eq!(TestParser::new(source("-12")).parse_num(), Ok(num("-12")));
    assert_eq!(TestParser::new(source("+3")).parse_num(), Ok(num("+3")));
    assert_eq!(TestParser::new(source(".5")).parse_num(), Ok(num(".5")));
    assert_eq!(TestParser::new(source("x12")).parse_num(), Err(SyntaxError::InvalidNumber));
    assert_eq!(TestParser::new(source("")).parse_num(), Err(SyntaxError::InvalidNumber));
    assert_eq!(TestParser::new(source("+")).parse_num(), Err(SyntaxError::InvalidNumber));
    assert_eq!(TestParser::new(source(" 1")).parse_num(), Err(SyntaxError::InvalidNumber));
}

#[test]
fn test_parser_scan_next_skips_whitespace() {
    let mut p = TestParser::new(source("a \t\n\u{a0}b"));
    // the input is bytes: U+00A0 arrives as the two bytes C2 A0
    p.scan_next();
    assert_eq!(p.next_char, '\u{c2}');
    let mut q = TestParser::new(CharSource::new(vec![b'a', b' ', 0xa0, 0x85, b'\t', b'b', b'c']));
    q.scan_next();
    assert_eq!(q.next_char, 'b');
    q.get_char();
    assert_eq!(q.next_char, 'c');
    q.scan_next();
    assert_eq!(q.next_char, '\0');
}

#[test]
fn test_parser_term_layers_sums_over_products() {
    let mut p = TestParser::new(source("1 + 2 * 3 - 8 / 4"));
    let tree = p.parse_term().unwrap();
    assert_eq!(
        tree,
        bin(
            '-',
            bin('+', num("1"), bin('*', num("2"), num("3"))),
            bin('/', num("8"), num("4"))
        )
    );
    assert_eq!(eval(&tree), 5.0);
    assert_eq!(p.next_char, '\0');
}

#[test]
fn test_parser_factor_groups_from_the_left() {
    let mut p = TestParser::new(source("8/4/2+1"));
    let tree = p.parse_factor().unwrap();
    assert_eq!(tree, bin('/', bin('/', num("8"), num("4")), num("2")));
    assert_eq!(eval(&tree), 1.0);
    assert_eq!(p.next_char, '+');
}

#[test]
fn test_parser_term_errors() {
    assert_eq!(TestParser::new(source("1 + x")).parse_term(), Err(SyntaxError::InvalidNumber));
    assert_eq!(TestParser::new(source("1 *")).parse_term(), Err(SyntaxError::InvalidNumber));
    assert_eq!(TestParser::new(source("")).parse_factor(), Err(SyntaxError::InvalidNumber));
}

#[test]
fn loop_parser_primes_lookahead() {
    assert_eq!(LoopParser::new(source("(1)")).next_char, '(');
}

#[test]
fn loop_parser_precedences() {
    assert_eq!(LoopParser::get_prec('+'), 10);
    assert_eq!(LoopParser::get_prec('*'), 40);
    assert_eq!(LoopParser::get_prec('-'), -1);
    assert_eq!(LoopParser::get_prec('/'), -1);
    assert_eq!(LoopParser::get_prec('\0'), -1);
}

#[test]
fn loop_parser_climbs() {
    let mut p = LoopParser::new(source("1 + 2 * 3 + 4"));
    let lhs = p.parse_primary().unwrap();
    let tree = p.parse_biop(lhs, 0).unwrap();
    assert_eq!(
        tree,
        bin('+', bin('+', num("1"), bin('*', num("2"), num("3"))), num("4"))
    );
    assert_eq!(eval(&tree), 11.0);
}

#[test]
fn loop_parser_parentheses() {
    let mut p = LoopParser::new(source("( 1 + 2 ) * 3"));
    let lhs = p.parse_primary().unwrap();
    assert_eq!(lhs, bin('+', num("1"), num("2")));
    assert_eq!(p.next_char, '*');
    let tree = p.parse_biop(lhs, 0).unwrap();
    assert_eq!(tree, bin('*', bin('+', num("1"), num("2")), num("3")));
    assert_eq!(eval(&tree), 9.0);
}

#[test]
fn loop_parser_threshold() {
    let mut p = LoopParser::new(source("*2+3"));
    assert_eq!(p.parse_biop(num("5"), 11), Ok(bin('*', num("5"), num("2"))));
    assert_eq!(p.next_char, '+');
}

#[test]
fn loop_parser_errors() {
    assert_eq!(
        LoopParser::new(source("(1+2")).parse_primary(),
        Err(SyntaxError::ExpectedCloseParen)
    );
    assert_eq!(LoopParser::new(source("a")).parse_primary(), Err(SyntaxError::InvalidNumber));
    assert_eq!(LoopParser::new(source("")).parse_num(), Err(SyntaxError::InvalidNumber));
    let mut p = LoopParser::new(source("+ )"));
    assert_eq!(p.parse_biop(num("1"), 0), Err(SyntaxError::InvalidNumber));
}

#[test]
fn loop_parser_moves() {
    let mut p = LoopParser::new(source("a  b"));
    p.get_char();
    assert_eq!(p.next_char, ' ');
    p.scan_next();
    assert_eq!(p.next_char, 'b');
    assert_eq!(LoopParser::new(source("42 ")).parse_num(), Ok(num("42")));
}

#[test]
fn loop_parser_string_primes_lookahead() {
    assert_eq!(LoopParserString::new(source("9")).next_char, '9');
}

#[test]
fn loop_parser_string_precedences() {
    assert_eq!(LoopParserString::get_prec('+'), 10);
    assert_eq!(LoopParserString::get_prec('-'), 10);
    assert_eq!(LoopParserString::get_prec('/'), 40);
    assert_eq!(LoopParserString::get_prec('*'), 40);
    assert_eq!(LoopParserString::get_prec('('), -1);
}

#[test]
fn loop_parser_string_number() {
    let mut p = LoopParserString::new(source("123   + 4"));
    assert_eq!(p.parse_num(), "123");
    assert_eq!(p.next_char, '+');
    let mut q = LoopParserString::new(source("x12y"));
    assert_eq!(q.parse_num(), "x12");
    assert_eq!(q.next_char, 'y');
    let mut e = LoopParserString::new(source(""));
    assert_eq!(e.parse_num(), "\0");
    assert_eq!(e.next_char, '\0');
}

#[test]
fn loop_parser_string_primary() {
    assert_eq!(LoopParserString::new(source("42")).parse_primary(), Ok("42".to_string()));
    assert_eq!(
        LoopParserString::new(source("(1+2*3)")).parse_primary(),
        Ok("(1+(2*3))".to_string())
    );
    assert_eq!(
        LoopParserString::new(source("((7))")).parse_primary(),
        Ok("7".to_string())
    );
    assert_eq!(
        LoopParserString::new(source("(1+2")).parse_primary(),
        Err(SyntaxError::ExpectedCloseParen)
    );
}

#[test]
fn loop_parser_string_climbs() {
    let mut p = LoopParserString::new(source("1 - 2 / 3 * 4 + 5"));
    let lhs = p.parse_primary().unwrap();
    assert_eq!(p.parse_biop(lhs, 0), Ok("((1-((2/3)*4))+5)".to_string()));
    assert_eq!(p.next_char, '\0');
}

#[test]
fn loop_parser_string_parentheses_and_threshold() {
    let mut p = LoopParserString::new(source("( 1 + 2 ) * 3 + 4"));
    let lhs = p.parse_primary().unwrap();
    assert_eq!(lhs, "(1+2)");
    assert_eq!(p.parse_biop(lhs, 11), Ok("((1+2)*3)".to_string()));
    assert_eq!(p.next_char, '+');
}

#[test]
fn loop_parser_string_returns_lhs_without_operator() {
    let mut p = LoopParserString::new(source(")"));
    assert_eq!(p.parse_biop("abc".to_string(), 0), Ok("abc".to_string()));
    assert_eq!(p.next_char, ')');
}

#[test]
fn loop_parser_string_moves() {
    let mut p = LoopParserString::new(source("a \n b"));
    p.get_char();
    assert_eq!(p.next_char, ' ');
    p.scan_next();
    assert_eq!(p.next_char, 'b');
    p.scan_next();
    assert_eq!(p.next_char, '\0');
}
