use lox_interpreter::lexer::{Literal, Token, TokenType};
use lox_interpreter::number::{equal, less, less_equal, negate, INFINITY_BITS, SIGN_BIT};
use lox_interpreter::reporter::{push_decimal, Reporter};

fn print_number(bits: u64) -> String {
    format!("{:?}", f64::from_bits(bits))
}

fn number(value: f64) -> Literal {
    Literal::Number(value.to_bits())
}

fn samples() -> Vec<f64> {
    vec![
        0.0,
        -0.0,
        1.0,
        -1.0,
        1.5,
        -1.5,
        2.0,
        1e-320,
        -1e-320,
        f64::MIN_POSITIVE,
        -f64::MIN_POSITIVE,
        f64::EPSILON,
        1e300,
        -1e300,
        f64::MAX,
        f64::MIN,
        f64::INFINITY,
        f64::NEG_INFINITY,
        f64::NAN,
        -f64::NAN,
        f64::from_bits(0x7FF0_0000_0000_0001),
        f64::from_bits(0xFFFF_FFFF_FFFF_FFFF),
        6.666666666666667,
    ]
}

#[test]
fn compares_numbers_as_the_machine_does() {
    for x in samples() {
        for y in samples() {
            let (a, b) = (x.to_bits(), y.to_bits());
            assert_eq!(equal(a, b), x == y, "{:?} == {:?}", x, y);
            assert_eq!(less(a, b), x < y, "{:?} < {:?}", x, y);
            assert_eq!(less_equal(a, b), x <= y, "{:?} <= {:?}", x, y);
            assert_eq!(less(b, a), x > y, "{:?} > {:?}", x, y);
            assert_eq!(less_equal(b, a), x >= y, "{:?} >= {:?}", x, y);
        }
    }
}

#[test]
fn negates_numbers_as_the_machine_does() {
    for x in samples() {
        assert_eq!(negate(x.to_bits()), (-x).to_bits(), "-{:?}", x);
        assert_eq!(negate(negate(x.to_bits())), x.to_bits());
    }
}

#[test]
fn names_the_sign_bit_and_infinity() {
    assert_eq!(SIGN_BIT, (-0.0f64).to_bits());
    assert_eq!(INFINITY_BITS, f64::INFINITY.to_bits());
    assert_eq!(negate(0), SIGN_BIT);
    assert_eq!(negate(SIGN_BIT), 0);
}

#[test]
fn the_two_zeros_are_equal_and_a_nan_equals_nothing() {
    assert!(equal(0, SIGN_BIT));
    assert!(!less(SIGN_BIT, 0));
    assert!(less_equal(0, SIGN_BIT));
    let nan = f64::NAN.to_bits();
    assert!(!equal(nan, nan));
    assert!(!less_equal(nan, nan));
    assert!(!less(nan, 0));
    assert!(!less(0, nan));
}

#[test]
fn values_are_equal_within_one_type_only() {
    assert_eq!(number(0.0), number(-0.0));
    assert_ne!(number(f64::NAN), number(f64::NAN));
    assert_ne!(number(1.0), Literal::String("1".to_string()));
    assert_ne!(Literal::Null, Literal::Boolean(false));
    assert_eq!(Literal::Null, Literal::Null);
    assert_eq!(Literal::String("a".to_string()), Literal::String("a".to_string()));
    assert_ne!(Literal::String("a".to_string()), Literal::String("b".to_string()));
    assert_ne!(Literal::Boolean(true), Literal::Boolean(false));
}

#[test]
fn clones_values_and_tokens() {
    let values = vec![
        Literal::String("a\nb".to_string()),
        number(2.5),
        Literal::Null,
        Literal::Boolean(true),
    ];
    for value in values {
        assert_eq!(value.clone(), value);
        let token = Token::new(TokenType::String, "x", Some(value), 9);
        assert_eq!(token.clone(), token);
    }
    let bare = Token::new(TokenType::Eof, "", None, 1);
    assert_eq!(bare.clone(), bare);
}

#[test]
fn renders_values() {
    assert_eq!(Literal::String("as is".to_string()).render(&print_number), "as is");
    assert_eq!(number(3.0).render(&print_number), "3.0");
    assert_eq!(number(0.1).render(&print_number), "0.1");
    assert_eq!(Literal::Null.render(&print_number), "nil");
    assert_eq!(Literal::Boolean(true).render(&print_number), "true");
    assert_eq!(Literal::Boolean(false).render(&print_number), "false");
}

#[test]
fn renders_tokens() {
    let paren = Token::new(TokenType::LeftParen, "(", None, 1);
    assert_eq!(paren.render(&print_number), "LEFT_PAREN ( null");
    let three = Token::new(TokenType::Number, "03", Some(number(3.0)), 1);
    assert_eq!(three.render(&print_number), "NUMBER 03 3.0");
    let text = Token::new(TokenType::String, "\"hi\"", Some(Literal::String("hi".to_string())), 1);
    assert_eq!(text.render(&print_number), "STRING \"hi\" hi");
    let end = Token::new(TokenType::Eof, "", None, 4);
    assert_eq!(end.render(&print_number), "EOF  null");
}

#[test]
fn builds_a_token_from_its_parts() {
    let token = Token::new(TokenType::Identifier, "foo", None, 12);
    assert_eq!(token.token_type, TokenType::Identifier);
    assert_eq!(token.lexeme, "foo");
    assert_eq!(token.literal, None);
    assert_eq!(token.line, 12);
}

#[test]
fn names_every_kind_in_upper_snake_case() {
    let names = vec![
        (TokenType::LeftParen, "LEFT_PAREN"),
        (TokenType::RightParen, "RIGHT_PAREN"),
        (TokenType::LeftBrace, "LEFT_BRACE"),
        (TokenType::RightBrace, "RIGHT_BRACE"),
        (TokenType::Comma, "COMMA"),
        (TokenType::Dot, "DOT"),
        (TokenType::Minus, "MINUS"),
        (TokenType::Plus, "PLUS"),
        (TokenType::Semicolon, "SEMICOLON"),
        (TokenType::Slash, "SLASH"),
        (TokenType::Star, "STAR"),
        (TokenType::Bang, "BANG"),
        (TokenType::BangEqual, "BANG_EQUAL"),
        (TokenType::Equal, "EQUAL"),
        (TokenType::EqualEqual, "EQUAL_EQUAL"),
        (TokenType::Greater, "GREATER"),
        (TokenType::GreaterEqual, "GREATER_EQUAL"),
        (TokenType::Less, "LESS"),
        (TokenType::LessEqual, "LESS_EQUAL"),
        (TokenType::Identifier, "IDENTIFIER"),
        (TokenType::String, "STRING"),
        (TokenType::Number, "NUMBER"),
        (TokenType::And, "AND"),
        (TokenType::Class, "CLASS"),
        (TokenType::Else, "ELSE"),
        (TokenType::False, "FALSE"),
        (TokenType::Fun, "FUN"),
        (TokenType::For, "FOR"),
        (TokenType::If, "IF"),
        (TokenType::Nil, "NIL"),
        (TokenType::Or, "OR"),
        (TokenType::Print, "PRINT"),
        (TokenType::Return, "RETURN"),
        (TokenType::Super, "SUPER"),
        (TokenType::This, "THIS"),
        (TokenType::True, "TRUE"),
        (TokenType::Var, "VAR"),
        (TokenType::While, "WHILE"),
        (TokenType::Eof, "EOF"),
    ];
    for (kind, name) in names {
        assert_eq!(kind.name(), name);
        assert_eq!(kind.to_string(), name);
    }
}

#[test]
fn writes_numbers_in_decimal() {
    let cases: Vec<(usize, &str)> = vec![
        (0, "0"),
        (7, "7"),
        (9, "9"),
        (10, "10"),
        (42, "42"),
        (100, "100"),
        (1009, "1009"),
        (123456789, "123456789"),
    ];
    for (n, text) in cases {
        let mut out = String::from("n=");
        push_decimal(&mut out, n);
        assert_eq!(out, format!("n={}", text));
    }
    let mut out = String::new();
    push_decimal(&mut out, usize::MAX);
    assert_eq!(out, usize::MAX.to_string());
}

#[test]
fn formats_reports() {
    let mut reporter = Reporter::shared();
    assert!(!reporter.had_error());
    reporter.report(3, "", "Unterminated string");
    reporter.report(120, " at 'x'", "Nope");
    assert!(reporter.had_error());
    assert_eq!(
        reporter.errors,
        vec!["[line 3] Error: Unterminated string", "[line 120] Error at 'x': Nope"]
    );
}

#[test]
fn points_an_error_at_its_token() {
    let mut reporter = Reporter::default();
    reporter.error(Token::new(TokenType::Eof, "", None, 5), "Expect expression.");
    reporter.error(Token::new(TokenType::Plus, "+", None, 2), "Expect expression.");
    reporter.error(Token::new(TokenType::Identifier, "it's", None, 1), "No");
    assert_eq!(
        reporter.errors,
        vec![
            "[line 5] Error at the end: Expect expression.",
            "[line 2] Error at '+': Expect expression.",
            "[line 1] Error at 'it's': No"
        ]
    );
}

#[test]
fn a_new_reporter_is_empty() {
    assert!(Reporter::new().errors.is_empty());
    assert!(Reporter::shared().errors.is_empty());
    assert!(Reporter::default().errors.is_empty());
}
