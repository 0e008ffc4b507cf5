use kaleidoscope::chars::{
    find_run_end, is_alnum, is_alpha, is_comment_char, is_digit, is_number_char, is_space,
    is_whitespace, CharClass,
};
use kaleidoscope::error::SyntaxError;
use kaleidoscope::lexer::Lexer;
use kaleidoscope::number::{check_float_literal, check_signed_float_literal};
use kaleidoscope::source::CharSource;
use kaleidoscope::text::string_of;
use kaleidoscope::token::Token;

fn lexer(input: &[u8]) -> Lexer {
    Lexer::new(CharSource::new(input.to_vec()))
}

/// The tokens of `input` up to and including `Eof`, or the error.
fn tokens(input: &str) -> Result<Vec<Token>, SyntaxError> {
    let mut lx = lexer(input.as_bytes());
    let mut out = Vec::new();
    loop {
        lx.get_next_tok()?;
        out.push(lx.cur_tok.clone());
        if lx.cur_tok == Token::Eof {
            return Ok(out);
        }
    }
}

fn ident(name: &str) -> Token {
    Token::Identifier(name.to_string())
}

fn number(text: &str) -> Token {
    Token::Number(text.to_string())
}

#[test]
fn source_reads_bytes_then_sentinel() {
    let mut src = CharSource::new(b"ab".to_vec());
    assert_eq!(src.next_byte(), 'a');
    assert_eq!(src.next_byte(), 'b');
    assert_eq!(src.next_byte(), '\0');
    assert_eq!(src.next_byte(), '\0');
}

#[test]
fn source_maps_each_byte_to_one_character() {
    let mut src = CharSource::new(vec![0xe9, 0x41]);
    assert_eq!(src.next_byte(), '\u{e9}');
    assert_eq!(src.next_byte(), 'A');
    assert_eq!(src.next_byte(), '\0');
}

#[test]
fn source_stops_at_nul_byte() {
    let mut src = CharSource::new(vec![b'a', 0, b'b']);
    assert_eq!(src.next_byte(), 'a');
    assert_eq!(src.next_byte(), '\0');
    assert_eq!(src.next_byte(), '\0');
}

#[test]
fn new_lexer_primes_lookahead() {
    let lx = lexer(b"xy");
    assert_eq!(lx.cur_tok, Token::Eof);
    assert_eq!(lx.last_char, 'x');
    let empty = lexer(b"");
    assert_eq!(empty.cur_tok, Token::Eof);
    assert_eq!(empty.last_char, '\0');
}

#[test]
fn lookahead_is_first_character_after_token() {
    let mut lx = lexer(b"foo(12.5)+ x");
    lx.get_next_tok().unwrap();
    assert_eq!(lx.cur_tok, ident("foo"));
    assert_eq!(lx.last_char, '(');
    lx.get_next_tok().unwrap();
    assert_eq!(lx.cur_tok, Token::Char('('));
    assert_eq!(lx.last_char, '1');
    lx.get_next_tok().unwrap();
    assert_eq!(lx.cur_tok, number("12.5"));
    assert_eq!(lx.last_char, ')');
    lx.get_next_tok().unwrap();
    assert_eq!(lx.cur_tok, Token::Char(')'));
    assert_eq!(lx.last_char, '+');
    lx.get_next_tok().unwrap();
    assert_eq!(lx.cur_tok, Token::Char('+'));
    assert_eq!(lx.last_char, ' ');
    lx.get_next_tok().unwrap();
    assert_eq!(lx.cur_tok, ident("x"));
    assert_eq!(lx.last_char, '\0');
    lx.get_next_tok().unwrap();
    assert_eq!(lx.cur_tok, Token::Eof);
    assert_eq!(lx.last_char, '\0');
}

#[test]
fn keywords_and_identifiers() {
    assert_eq!(
        tokens("def extern defx Extern x1 e").unwrap(),
        vec![
            Token::Def,
            Token::Extern,
            ident("defx"),
            ident("Extern"),
            ident("x1"),
            ident("e"),
            Token::Eof
        ]
    );
}

#[test]
fn numbers_keep_their_text() {
    assert_eq!(
        tokens("4 1.5 .5 5. 1e5 1E5 1.e5 007").unwrap(),
        vec![
            number("4"),
            number("1.5"),
            number(".5"),
            number("5."),
            number("1e5"),
            number("1E5"),
            number("1.e5"),
            number("007"),
            Token::Eof
        ]
    );
}

#[test]
fn number_text_parses_to_the_value() {
    let toks = tokens("4 1.5 .5 1e2").unwrap();
    let values: Vec<f64> = toks
        .iter()
        .filter_map(|t| match t {
            Token::Number(text) => Some(text.parse::<f64>().unwrap()),
            _ => None,
        })
        .collect();
    assert_eq!(values, vec![4.0, 1.5, 0.5, 100.0]);
}

#[test]
fn punctuation_is_one_token_per_character() {
    assert_eq!(
        tokens("))(,;<+-*/=!").unwrap(),
        vec![
            Token::Char(')'),
            Token::Char(')'),
            Token::Char('('),
            Token::Char(','),
            Token::Char(';'),
            Token::Char('<'),
            Token::Char('+'),
            Token::Char('-'),
            Token::Char('*'),
            Token::Char('/'),
            Token::Char('='),
            Token::Char('!'),
            Token::Eof
        ]
    );
}

#[test]
fn whitespace_between_tokens_is_optional() {
    assert_eq!(tokens("a+b*(c-1)").unwrap(), tokens(" a + b\t* (\nc\r-\x0c1\x0b) ").unwrap());
}

#[test]
fn whitespace_inserted_between_tokens_keeps_tokens() {
    let plain = "def f(x y) x+y*2;";
    let spaced = " def  f ( x\ty )\nx + y * 2 ;\n";
    assert_eq!(tokens(plain).unwrap(), tokens(spaced).unwrap());
}

#[test]
fn comment_is_as_good_as_a_newline() {
    let with_comment = "a # the rest is ignored: b c 1.2.3\nb";
    let with_newline = "a \nb";
    assert_eq!(tokens(with_comment).unwrap(), tokens(with_newline).unwrap());
    assert_eq!(tokens(with_comment).unwrap(), vec![ident("a"), ident("b"), Token::Eof]);
}

#[test]
fn comment_ends_at_carriage_return() {
    assert_eq!(tokens("# one\rx").unwrap(), vec![ident("x"), Token::Eof]);
}

#[test]
fn comment_after_comment() {
    assert_eq!(tokens("# one\n# two\n  # three\nx").unwrap(), vec![ident("x"), Token::Eof]);
}

#[test]
fn comment_that_ends_at_eof() {
    let mut lx = lexer(b"x # trailing");
    lx.get_next_tok().unwrap();
    assert_eq!(lx.cur_tok, ident("x"));
    lx.get_next_tok().unwrap();
    assert_eq!(lx.cur_tok, Token::Eof);
}

#[test]
fn eof_repeats() {
    let mut lx = lexer(b"");
    for _ in 0..3 {
        lx.get_next_tok().unwrap();
        assert_eq!(lx.cur_tok, Token::Eof);
        assert_eq!(lx.last_char, '\0');
    }
}

#[test]
fn nul_byte_ends_the_input() {
    assert_eq!(tokens("a\0b").unwrap(), vec![ident("a"), Token::Eof]);
}

#[test]
fn bare_dot_is_a_lexical_error() {
    assert_eq!(tokens("."), Err(SyntaxError::InvalidNumber));
}

#[test]
fn malformed_numbers_are_lexical_errors() {
    for bad in ["1.2.3", "1e", "1a", "1.5x", "..", "1e5e", "9z9", ".e5", "1e.5"] {
        assert_eq!(tokens(bad), Err(SyntaxError::InvalidNumber), "{}", bad);
    }
}

#[test]
fn lexical_error_consumes_the_run_and_keeps_the_token() {
    let mut lx = lexer(b"x 1a;");
    lx.get_next_tok().unwrap();
    assert_eq!(lx.get_next_tok(), Err(SyntaxError::InvalidNumber));
    assert_eq!(lx.cur_tok, ident("x"));
    assert_eq!(lx.last_char, ';');
    lx.get_next_tok().unwrap();
    assert_eq!(lx.cur_tok, Token::Char(';'));
}

#[test]
fn sign_is_not_part_of_a_number() {
    assert_eq!(
        tokens("1e+5").unwrap_err(),
        SyntaxError::InvalidNumber
    );
    assert_eq!(tokens("-5").unwrap(), vec![Token::Char('-'), number("5"), Token::Eof]);
}

#[test]
fn bytes_outside_ascii_are_single_character_tokens() {
    let mut lx = lexer(&[b'a', 0xe9, b'b', 0xa0, b'1']);
    let mut out = Vec::new();
    loop {
        lx.get_next_tok().unwrap();
        out.push(lx.cur_tok.clone());
        if lx.cur_tok == Token::Eof {
            break;
        }
    }
    assert_eq!(
        out,
        vec![
            ident("a"),
            Token::Char('\u{e9}'),
            ident("b"),
            Token::Char('\u{a0}'),
            number("1"),
            Token::Eof
        ]
    );
}

#[test]
fn get_tok_leaves_the_current_token() {
    let mut lx = lexer(b"a b");
    lx.get_next_tok().unwrap();
    assert_eq!(lx.get_tok(), Some(ident("b")));
    assert_eq!(lx.cur_tok, ident("a"));
    assert_eq!(lx.get_tok(), Some(Token::Eof));
    let mut bad = lexer(b"1x");
    assert_eq!(bad.get_tok(), None);
}

#[test]
fn is_char_tells_characters_apart() {
    assert!(Token::Char('(').is_char('('));
    assert!(!Token::Char('(').is_char(')'));
    assert!(!ident("x").is_char('x'));
    assert!(!Token::Eof.is_char('\0'));
}

#[test]
fn character_classes() {
    for c in [' ', '\t', '\n', '\r', '\x0c', '\x0b'] {
        assert!(is_space(c));
    }
    for c in ['a', '0', '\0', '\u{a0}', '\u{85}', '#'] {
        assert!(!is_space(c));
    }
    assert!(is_alpha('a') && is_alpha('z') && is_alpha('A') && is_alpha('Z'));
    assert!(!is_alpha('0') && !is_alpha('_') && !is_alpha('\u{e9}') && !is_alpha('['));
    assert!(is_digit('0') && is_digit('9') && !is_digit('a') && !is_digit('/'));
    assert!(is_alnum('q') && is_alnum('7') && !is_alnum('.') && !is_alnum(' '));
}

#[test]
fn whitespace_class_agrees_with_std() {
    for code in 0u32..0x3100 {
        if let Some(c) = char::from_u32(code) {
            assert_eq!(is_whitespace(c), c.is_whitespace(), "U+{:04X}", code);
        }
    }
}

#[test]
fn ascii_classes_agree_with_std() {
    for code in 0u32..0x300 {
        if let Some(c) = char::from_u32(code) {
            assert_eq!(is_alpha(c), c.is_ascii_alphabetic(), "U+{:04X}", code);
            assert_eq!(is_digit(c), c.is_ascii_digit(), "U+{:04X}", code);
            assert_eq!(is_digit(c), c.is_digit(10), "U+{:04X}", code);
            assert_eq!(is_alnum(c), c.is_ascii_alphanumeric(), "U+{:04X}", code);
        }
    }
}

fn chars(s: &str) -> Vec<char> {
    s.chars().collect()
}

#[test]
fn float_literal_examples() {
    for good in ["4", "1.5", ".5", "5.", "1e5", "1E5", "1.e5", ".5e10", "007", "0.0e0"] {
        assert!(check_float_literal(&chars(good)), "{}", good);
    }
    for bad in ["", ".", "e5", "1e", "1.2.3", "1a", ".e5", "1e5.", "1ee5", "+1", "-1", "1 "] {
        assert!(!check_float_literal(&chars(bad)), "{}", bad);
    }
}

/// Every text of up to five characters over a small alphabet of number
/// characters: the grammar accepts it exactly when the standard float parser
/// does.
#[test]
fn float_literal_agrees_with_float_parsing() {
    let alphabet = ['0', '7', '.', 'e', 'E', 'a'];
    let mut texts: Vec<String> = vec![String::new()];
    let mut frontier: Vec<String> = vec![String::new()];
    for _ in 0..5 {
        let mut next = Vec::new();
        for t in &frontier {
            for c in alphabet {
                let mut u = t.clone();
                u.push(c);
                next.push(u);
            }
        }
        texts.extend(next.iter().cloned());
        frontier = next;
    }
    for t in texts {
        assert_eq!(check_float_literal(&chars(&t)), t.parse::<f64>().is_ok(), "{:?}", t);
    }
}

#[test]
fn signed_float_literal_agrees_with_float_parsing() {
    for t in ["+5", "-5", "5", "+", "-", "+.5", "-5.", "++5", "+-5", "x5", " 5", "(5", "+e5", "-1e3"] {
        assert_eq!(check_signed_float_literal(&chars(t)), t.parse::<f64>().is_ok(), "{:?}", t);
    }
}

#[test]
fn string_of_keeps_every_character() {
    assert_eq!(string_of(&chars("")), "");
    assert_eq!(string_of(&chars("a")), "a");
    assert_eq!(string_of(&chars("extern x1")), "extern x1");
    assert_eq!(string_of(&vec!['\u{e9}', '\0', 'z']), "\u{e9}\0z");
}

#[test]
fn run_end_finds_the_first_character_outside_the_class() {
    let text = chars("abc12.5e x");
    assert_eq!(find_run_end(&text, 0, CharClass::Alnum), 5);
    assert_eq!(find_run_end(&text, 0, CharClass::Digit), 0);
    assert_eq!(find_run_end(&text, 3, CharClass::Digit), 5);
    assert_eq!(find_run_end(&text, 3, CharClass::NumberChar), 8);
    assert_eq!(find_run_end(&text, 8, CharClass::Whitespace), 9);
    assert_eq!(find_run_end(&text, 0, CharClass::CommentChar), 10);
    assert_eq!(find_run_end(&text, 10, CharClass::Alnum), 10);
    assert_eq!(find_run_end(&chars("ab\ncd"), 0, CharClass::CommentChar), 2);
}

#[test]
fn number_and_comment_classes() {
    assert!(is_number_char('.') && is_number_char('e') && is_number_char('7'));
    assert!(!is_number_char('+') && !is_number_char('-') && !is_number_char(' '));
    assert!(is_comment_char('#') && is_comment_char(' ') && is_comment_char('\t'));
    assert!(!is_comment_char('\n') && !is_comment_char('\r') && !is_comment_char('\0'));
    assert!(CharClass::Digit.has('5') && !CharClass::Digit.has('a'));
    assert!(CharClass::Whitespace.has('\u{3000}') && !CharClass::Whitespace.has('\0'));
}
