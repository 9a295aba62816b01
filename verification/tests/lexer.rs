use red_js_interpreter::chars::{is_ident_continue, is_ident_start};
use red_js_interpreter::lexer::{tokenize, try_tokenize, Lexer};
use red_js_interpreter::token::{BinaryOp, Exponent, NumberLiteral, Token};

/// A numeric token's value as the interpreter reads it: an integer when the
/// value is one, a float otherwise.
#[derive(Debug, PartialEq)]
enum Value {
    BigInt(i64),
    Number(f64),
}

fn value_of(lit: &NumberLiteral) -> Value {
    let pow = match &lit.exponent {
        Some(e) => {
            let d: u32 = e.digits.parse().unwrap();
            10.0_f64.powf(d as f64 * if e.negative { -1.0 } else { 1.0 })
        }
        None => 1.0_f64,
    };
    let n = if let Ok(n) = lit.mantissa.parse::<i64>() {
        n as f64 * pow
    } else {
        lit.mantissa.parse::<f64>().unwrap() * pow
    };
    if ((n as i64) as f64) == n {
        Value::BigInt(n as i64)
    } else {
        Value::Number(n)
    }
}

fn number(t: &Token) -> Value {
    match t {
        Token::Number(lit) => value_of(lit),
        other => panic!("not a number: {other:?}"),
    }
}

fn lit(mantissa: &str, exponent: Option<(bool, &str)>) -> Token {
    Token::Number(NumberLiteral {
        mantissa: mantissa.to_string(),
        exponent: exponent.map(|(negative, digits)| Exponent {
            negative,
            digits: digits.to_string(),
        }),
    })
}

fn ident(s: &str) -> Token {
    Token::Ident(s.to_string())
}

#[test]
fn lexes_decimal_exponents() {
    for (source, expected) in [
        ("1e4", Value::BigInt(10_000)),
        ("1E4", Value::BigInt(10_000)),
        ("1e-4", Value::Number(0.0001)),
        ("1E+4", Value::BigInt(10_000)),
        ("1.5e2", Value::BigInt(150)),
        ("4n", Value::BigInt(4)),
    ] {
        let mut lexer = Lexer::new(source);
        let first = lexer.next_token(&[]);
        assert_eq!(number(&first), expected);
        assert_eq!(lexer.next_token(&[first]), Token::Eof);
    }
}

#[test]
fn lexes_html_comments() {
    let mut lexer = Lexer::new("<!--\n-->");
    assert_eq!(lexer.next_token(&[]), Token::Eof);

    let mut lexer = Lexer::new("-->");
    assert_eq!(lexer.next_token(&[]), Token::MinusMinus);
}

#[test]
fn number_literals_keep_their_parts() {
    assert_eq!(tokenize("1e4"), vec![lit("1", Some((false, "4"))), Token::Eof]);
    assert_eq!(tokenize("1e-4"), vec![lit("1", Some((true, "4"))), Token::Eof]);
    assert_eq!(tokenize("1E+4"), vec![lit("1", Some((false, "4"))), Token::Eof]);
    assert_eq!(tokenize(".5"), vec![lit("0.5", None), Token::Eof]);
    assert_eq!(tokenize("4n"), vec![lit("4", None), Token::Eof]);
    assert_eq!(tokenize("."), vec![Token::Dot, Token::Eof]);
}

#[test]
fn lexes_a_statement() {
    assert_eq!(
        tokenize("let x = a + 12;"),
        vec![
            Token::Let,
            ident("x"),
            Token::Assign(None),
            ident("a"),
            Token::Plus,
            lit("12", None),
            Token::Semicolon,
            Token::Eof,
        ]
    );
}

#[test]
fn lexes_compound_assignments_and_operators() {
    assert_eq!(
        tokenize("a += b; c *= d; e => f; g++ h-- i != j"),
        vec![
            ident("a"),
            Token::Assign(Some(BinaryOp::Add)),
            ident("b"),
            Token::Semicolon,
            ident("c"),
            Token::Assign(Some(BinaryOp::Mul)),
            ident("d"),
            Token::Semicolon,
            ident("e"),
            Token::Arrow,
            ident("f"),
            Token::Semicolon,
            ident("g"),
            Token::PlusPlus,
            ident("h"),
            Token::MinusMinus,
            ident("i"),
            Token::NotEq,
            ident("j"),
            Token::Eof,
        ]
    );
}

#[test]
fn lexes_strings_with_escapes() {
    assert_eq!(
        tokenize("'a\\nb' \"q\\\"\""),
        vec![
            Token::Str("a\nb".to_string()),
            Token::Str("q\"".to_string()),
            Token::Eof
        ]
    );
}

#[test]
fn lexes_template_literals() {
    let tokens = tokenize("`a${x}b`");
    assert_eq!(tokens[0], Token::TemplateStart);
    assert_eq!(tokens.last(), Some(&Token::Eof));
    assert!(tokens.contains(&ident("x")));
    assert!(tokens.contains(&Token::TemplateEnd));
}

#[test]
fn slash_after_an_operand_divides() {
    assert_eq!(
        tokenize("a / b"),
        vec![ident("a"), Token::Slash, ident("b"), Token::Eof]
    );
}

#[test]
fn slash_after_an_operator_begins_a_regex() {
    assert_eq!(
        tokenize("x = /ab+/g"),
        vec![
            ident("x"),
            Token::Assign(None),
            Token::Regex("ab+".to_string()),
            Token::Eof
        ]
    );
}

#[test]
fn comments_are_skipped() {
    assert_eq!(
        tokenize("a // one\n/* two */ b"),
        vec![ident("a"), ident("b"), Token::Eof]
    );
}

#[test]
fn empty_input_is_only_the_end() {
    assert_eq!(tokenize(""), vec![Token::Eof]);
    assert_eq!(tokenize("   \n\t "), vec![Token::Eof]);
}

#[test]
fn tokenize_ends_with_exactly_one_end() {
    for source in ["", "a", "let x = 1;", "f(a, b) { return a * b }"] {
        let tokens = tokenize(source);
        assert_eq!(tokens.last(), Some(&Token::Eof));
        assert_eq!(tokens.iter().filter(|t| **t == Token::Eof).count(), 1);
    }
}

#[test]
fn keywords_round_trip() {
    for word in ["function", "while", "typeof", "instanceof", "finally", "myVar"] {
        let t = Token::from_keyword(word.to_string());
        assert_eq!(t.as_keyword(), word);
    }
    assert_eq!(Token::from_keyword("if".to_string()), Token::If);
    assert_eq!(Token::from_keyword("iff".to_string()), ident("iff"));
}

#[test]
fn identifier_characters() {
    assert!(is_ident_start('a'));
    assert!(is_ident_start('_'));
    assert!(!is_ident_start('1'));
    assert!(is_ident_continue('1'));
    assert!(!is_ident_continue('-'));
}

#[test]
fn peek_sees_the_next_character() {
    let mut lexer = Lexer::new("ab");
    assert_eq!(lexer.peek(), Some('a'));
    let t = lexer.next_token(&[]);
    assert_eq!(t, ident("ab"));
    assert_eq!(lexer.peek(), None);
}

#[test]
fn try_tokenize_refuses_an_unclosed_comment() {
    assert_eq!(try_tokenize("a /* never closed"), None);
    assert_eq!(try_tokenize("a /* closed */ b"), Some(vec![ident("a"), ident("b"), Token::Eof]));
    assert_eq!(try_tokenize("let x = 1;"), Some(tokenize("let x = 1;")));
}

#[test]
fn try_next_token_stops_at_an_unclosed_comment() {
    let mut lexer = Lexer::new("x /*");
    let first = lexer.try_next_token(&[]);
    assert_eq!(first, Some(ident("x")));
    assert_eq!(lexer.try_next_token(&[ident("x")]), None);
}
