use lox_interpreter::ast::{AstPrinter, Expression};
use lox_interpreter::lexer::{Literal, Token, TokenType};
use lox_interpreter::parser::{Parser, SyntaxError};
use lox_interpreter::reporter::Reporter;
use lox_interpreter::scanner::Scanner;

fn read_number(text: &str) -> u64 {
    text.parse::<f64>().expect("a number literal").to_bits()
}

fn print_number(bits: u64) -> String {
    format!("{:?}", f64::from_bits(bits))
}

fn tokens(source: &str) -> Vec<Token> {
    let mut scanner = Scanner::new(source, Reporter::shared());
    scanner.scan_tokens(&read_number);
    assert!(scanner.reporter.errors.is_empty());
    scanner.tokens
}

fn parser(source: &str) -> Parser {
    Parser::new(&tokens(source), Reporter::shared())
}

fn printed(source: &str) -> String {
    let mut parser = parser(source);
    let expr = parser.parse();
    assert!(!parser.had_error(), "{:?}", parser.reporter.errors);
    AstPrinter::new().print(&expr, &print_number)
}

fn errors(source: &str) -> Vec<String> {
    let mut parser = parser(source);
    let expr = parser.parse();
    assert!(parser.had_error());
    assert!(matches!(expr, Expression::Literal(None)));
    parser.reporter.errors
}

#[test]
fn parses_each_primary() {
    assert_eq!(printed("12"), "12.0");
    assert_eq!(printed("\"text\""), "text");
    assert_eq!(printed("true"), "true");
    assert_eq!(printed("false"), "false");
    assert_eq!(printed("nil"), "nil");
    assert_eq!(printed("(1)"), "(group 1.0)");
    assert_eq!(printed("((1))"), "(group (group 1.0))");
}

#[test]
fn folds_nil_into_the_nil_value() {
    let mut parser = parser("nil");
    assert!(matches!(parser.parse(), Expression::Literal(Some(Literal::Null))));
}

#[test]
fn keeps_the_value_that_a_literal_token_carries() {
    let mut parser = parser("\"a b\"");
    match parser.parse() {
        Expression::Literal(Some(Literal::String(text))) => assert_eq!(text, "a b"),
        other => panic!("{:?}", other),
    }
}

#[test]
fn binary_operators_associate_to_the_left() {
    assert_eq!(printed("1 - 2 + 3"), "(+ (- 1.0 2.0) 3.0)");
    assert_eq!(printed("1 / 2 * 3 / 4"), "(/ (* (/ 1.0 2.0) 3.0) 4.0)");
    assert_eq!(printed("1 < 2 <= 3 > 4 >= 5"), "(>= (> (<= (< 1.0 2.0) 3.0) 4.0) 5.0)");
    assert_eq!(printed("1 == 2 != 3"), "(!= (== 1.0 2.0) 3.0)");
}

#[test]
fn higher_levels_bind_tighter() {
    assert_eq!(printed("1 + 2 * 3"), "(+ 1.0 (* 2.0 3.0))");
    assert_eq!(printed("1 * 2 + 3"), "(+ (* 1.0 2.0) 3.0)");
    assert_eq!(printed("1 < 2 + 3"), "(< 1.0 (+ 2.0 3.0))");
    assert_eq!(printed("1 == 2 < 3"), "(== 1.0 (< 2.0 3.0))");
    assert_eq!(printed("-1 * 2"), "(* (- 1.0) 2.0)");
    assert_eq!(printed("!true == false"), "(== (! true) false)");
    assert_eq!(printed("(1 + 2) * 3"), "(* (group (+ 1.0 2.0)) 3.0)");
}

#[test]
fn prefix_operators_chain() {
    assert_eq!(printed("!!true"), "(! (! true))");
    assert_eq!(printed("-!-1"), "(- (! (- 1.0)))");
    assert_eq!(printed("1 - -2"), "(- 1.0 (- 2.0))");
}

#[test]
fn keeps_operator_tokens_as_they_were_scanned() {
    let mut parser = Parser::new(&tokens("1\n>=\n2"), Reporter::shared());
    match parser.parse() {
        Expression::Binary(_, operator, _) => {
            assert_eq!(operator, Token::new(TokenType::GreaterEqual, ">=", None, 2));
        }
        other => panic!("{:?}", other),
    }
}

#[test]
fn stops_at_the_first_token_that_continues_nothing() {
    let mut parser = parser("1 + 2 3 4");
    let expr = parser.parse();
    assert!(!parser.had_error());
    assert_eq!(AstPrinter::new().print(&expr, &print_number), "(+ 1.0 2.0)");
    assert_eq!(parser.current, 3);
}

#[test]
fn reports_a_missing_expression() {
    assert_eq!(errors(""), vec!["[line 1] Error at the end: Expect expression."]);
    assert_eq!(errors("1 +"), vec!["[line 1] Error at the end: Expect expression."]);
    assert_eq!(errors("\n*"), vec!["[line 2] Error at '*': Expect expression."]);
    assert_eq!(errors("(1 + )"), vec!["[line 1] Error at ')': Expect expression."]);
    assert_eq!(errors("foo"), vec!["[line 1] Error at 'foo': Expect expression."]);
    assert_eq!(errors("- ;"), vec!["[line 1] Error at ';': Expect expression."]);
}

#[test]
fn reports_a_missing_right_paren_once() {
    assert_eq!(errors("(1"), vec!["[line 1] Error at the end: Expect ')' after expression."]);
    assert_eq!(
        errors("((1 + 2\n"),
        vec!["[line 2] Error at the end: Expect ')' after expression."]
    );
    assert_eq!(errors("(1 2) 3"), vec!["[line 1] Error at '2': Expect ')' after expression."]);
    assert_eq!(
        errors("((1 true))"),
        vec!["[line 1] Error at 'true': Expect ')' after expression."]
    );
}

#[test]
fn consumes_nothing_where_no_expression_starts() {
    let mut parser = parser("1 + ; 2");
    parser.parse();
    assert!(parser.had_error());
    assert_eq!(parser.current, 2);
}

#[test]
fn skips_to_the_end_after_a_missing_right_paren() {
    let mut parser = parser("(1 2 3 4");
    parser.parse();
    assert_eq!(parser.current, 5);
    assert_eq!(parser.tokens[parser.current].token_type, TokenType::Eof);
}

#[test]
fn skips_past_a_semicolon_after_a_missing_right_paren() {
    let mut parser = parser("(1 2 3 ; 4 5");
    parser.parse();
    assert_eq!(parser.current, 5);
    assert_eq!(parser.tokens[parser.current].lexeme, "4");
}

#[test]
fn stops_before_a_statement_after_a_missing_right_paren() {
    for keyword in ["class", "fun", "var", "for", "if", "while", "print", "return"] {
        let mut parser = parser(&format!("(1 2 3 {} 4", keyword));
        parser.parse();
        assert_eq!(parser.current, 4, "{}", keyword);
        assert_eq!(parser.tokens[parser.current].lexeme, keyword);
    }
}

#[test]
fn passes_over_the_offending_token_even_if_it_starts_a_statement() {
    let mut parser = parser("(1 print 2 var 3");
    parser.parse();
    assert_eq!(parser.reporter.errors, vec!["[line 1] Error at 'print': Expect ')' after expression."]);
    assert_eq!(parser.current, 4);
    assert_eq!(parser.tokens[parser.current].lexeme, "var");
}

#[test]
fn passes_over_an_offending_semicolon_and_stops_after_it() {
    let mut parser = parser("(1 ; 2 3");
    parser.parse();
    assert_eq!(parser.current, 3);
    assert_eq!(parser.tokens[parser.current].lexeme, "2");
}

#[test]
fn appends_to_the_errors_it_was_given() {
    let mut reporter = Reporter::shared();
    reporter.report(1, "", "Unexpected character: $");
    let mut parser = Parser::new(&tokens("("), reporter);
    assert!(parser.had_error());
    parser.parse();
    assert_eq!(
        parser.reporter.errors,
        vec![
            "[line 1] Error: Unexpected character: $",
            "[line 1] Error at the end: Expect expression."
        ]
    );
}

#[test]
fn copies_the_tokens_it_is_given() {
    let given = tokens("1 + 2");
    let parser = Parser::new(&given, Reporter::shared());
    assert_eq!(parser.tokens, given);
    assert_eq!(parser.current, 0);
    assert!(!parser.had_error());
}

#[test]
fn an_end_marker_in_the_middle_ends_the_input() {
    let mut given = tokens("1 +");
    given.pop();
    given.push(Token::new(TokenType::Eof, "", None, 1));
    given.extend(tokens("2"));
    let mut parser = Parser::new(&given, Reporter::shared());
    parser.parse();
    assert_eq!(parser.reporter.errors, vec!["[line 1] Error at the end: Expect expression."]);
}

#[test]
fn parsing_twice_gives_the_same_tree() {
    let first = printed("(1 + 2) * -3 == nil");
    let second = printed("(1 + 2) * -3 == nil");
    assert_eq!(first, second);
}

#[test]
fn says_why_an_expression_could_not_be_parsed() {
    assert!(matches!(parser("1 + 2").expression(), Ok(Expression::Binary(_, _, _))));
    assert!(matches!(parser("").expression(), Err(SyntaxError::ExpectedExpression)));
    assert!(matches!(parser("1 * (2 -").expression(), Err(SyntaxError::ExpectedExpression)));
    assert!(matches!(
        parser("(1").expression(),
        Err(SyntaxError::ExpectedToken(TokenType::RightParen))
    ));
    assert!(matches!(
        parser("!(1 2)").expression(),
        Err(SyntaxError::ExpectedToken(TokenType::RightParen))
    ));
}
