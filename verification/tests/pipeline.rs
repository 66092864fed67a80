use lox_interpreter::interpreter::TypeMismatch;
use lox_interpreter::lexer::{Literal, Token, TokenType};
use lox_interpreter::lox::Lox;
use lox_interpreter::number::Arithmetic;

fn read_number(text: &str) -> u64 {
    text.parse::<f64>().expect("a number literal").to_bits()
}

fn compute(operation: Arithmetic, left: u64, right: u64) -> u64 {
    let (x, y) = (f64::from_bits(left), f64::from_bits(right));
    let result = match operation {
        Arithmetic::Add => x + y,
        Arithmetic::Subtract => x - y,
        Arithmetic::Multiply => x * y,
        Arithmetic::Divide => x / y,
    };
    result.to_bits()
}

fn print_number(bits: u64) -> String {
    format!("{:?}", f64::from_bits(bits))
}

fn number(value: f64) -> Literal {
    Literal::Number(value.to_bits())
}

fn evaluate(source: &str) -> Option<Literal> {
    let mut lox = Lox::new(source, &read_number);
    lox.evaluate(&compute)
}

fn run(source: &str) -> Option<String> {
    let mut lox = Lox::new(source, &read_number);
    lox.run(&print_number)
}

#[test]
fn lox_tokenizes() {
    let source = "true";
    let lox = Lox::new(source, &read_number);
    assert_eq!(
        lox.tokens,
        vec![
            Token::new(TokenType::True, "true", None, 1),
            Token::new(TokenType::Eof, "", None, 1)
        ]
    );
}

#[test]
fn lox_evaluates_unary_boolean() {
    let source = "!true";
    let mut lox = Lox::new(source, &read_number);
    let result = lox.evaluate(&compute);
    assert!(result.is_some());
    assert_eq!(result.unwrap(), Literal::Boolean(false));
}

#[test]
fn lox_evaluates_binary_number() {
    let source = "2+3";
    let mut lox = Lox::new(source, &read_number);
    let result = lox.evaluate(&compute);
    assert!(result.is_some());
    assert_eq!(result.unwrap(), number(5.0));
}

#[test]
fn lox_evaluates_nested() {
    let source = "(2/3)+(2*3)";
    let mut lox = Lox::new(source, &read_number);
    let result = lox.evaluate(&compute);
    assert!(result.is_some());
    assert_eq!(result.unwrap(), number(6.666666666666667));
}

#[test]
fn lox_evaluates_strings() {
    let source = "\"hello\" + \" world\"";
    let mut lox = Lox::new(source, &read_number);
    let result = lox.evaluate(&compute);
    assert!(result.is_some());
    assert_eq!(result.unwrap(), Literal::String("hello world".to_string()));
}

#[test]
fn evaluates_by_precedence_and_from_the_left() {
    assert_eq!(evaluate("1 + 2 * 3"), Some(number(7.0)));
    assert_eq!(evaluate("10 - 4 - 3"), Some(number(3.0)));
    assert_eq!(evaluate("24 / 4 / 2"), Some(number(3.0)));
    assert_eq!(evaluate("(1 + 2) * 3"), Some(number(9.0)));
    assert_eq!(evaluate("-2 * -3"), Some(number(6.0)));
    assert_eq!(evaluate("--2"), Some(number(2.0)));
    assert_eq!(evaluate("1 + 2 < 4 == true"), Some(Literal::Boolean(true)));
    assert_eq!(evaluate("!(1 > 2) != false"), Some(Literal::Boolean(true)));
}

#[test]
fn evaluates_comparisons() {
    assert_eq!(evaluate("1 < 2"), Some(Literal::Boolean(true)));
    assert_eq!(evaluate("2 < 2"), Some(Literal::Boolean(false)));
    assert_eq!(evaluate("2 <= 2"), Some(Literal::Boolean(true)));
    assert_eq!(evaluate("3 > 2"), Some(Literal::Boolean(true)));
    assert_eq!(evaluate("2 >= 3"), Some(Literal::Boolean(false)));
    assert_eq!(evaluate("0 > -1"), Some(Literal::Boolean(true)));
    assert_eq!(evaluate("0 == -0"), Some(Literal::Boolean(true)));
}

#[test]
fn compares_values_of_different_types_as_unequal() {
    assert_eq!(evaluate("1 == \"1\""), Some(Literal::Boolean(false)));
    assert_eq!(evaluate("1 != \"1\""), Some(Literal::Boolean(true)));
    assert_eq!(evaluate("nil == false"), Some(Literal::Boolean(false)));
    assert_eq!(evaluate("nil == nil"), Some(Literal::Boolean(true)));
    assert_eq!(evaluate("\"a\" == \"a\""), Some(Literal::Boolean(true)));
    assert_eq!(evaluate("true != true"), Some(Literal::Boolean(false)));
}

#[test]
fn division_by_zero_is_no_error() {
    assert_eq!(evaluate("1 / 0"), Some(number(f64::INFINITY)));
    assert_eq!(evaluate("-1 / 0"), Some(number(f64::NEG_INFINITY)));
    match evaluate("0 / 0") {
        Some(Literal::Number(bits)) => assert!(f64::from_bits(bits).is_nan()),
        other => panic!("{:?}", other),
    }
    assert_eq!(evaluate("0 / 0 == 0 / 0"), Some(Literal::Boolean(false)));
}

#[test]
fn nil_evaluates_to_the_nil_value() {
    assert_eq!(evaluate("nil"), Some(Literal::Null));
    assert_eq!(evaluate("(nil)"), Some(Literal::Null));
}

#[test]
fn a_type_mismatch_gives_no_value_and_is_recorded() {
    let mut lox = Lox::new("1 + \"a\"", &read_number);
    assert_eq!(lox.evaluate(&compute), None);
    assert!(!lox.had_error());
    assert_eq!(lox.diagnostics.len(), 1);
    let TypeMismatch { operator, left, right } = &lox.diagnostics[0];
    assert_eq!(*operator, TokenType::Plus);
    assert_eq!(*left, number(1.0));
    assert_eq!(*right, Literal::String("a".to_string()));
}

#[test]
fn evaluation_stops_at_the_first_type_mismatch() {
    let mut lox = Lox::new("(true * 2) + (\"a\" - 1)", &read_number);
    assert_eq!(lox.evaluate(&compute), None);
    assert_eq!(lox.diagnostics.len(), 1);
    assert_eq!(lox.diagnostics[0].operator, TokenType::Star);
    assert_eq!(lox.diagnostics[0].left, Literal::Boolean(true));
}

#[test]
fn a_unary_operator_on_the_wrong_type_gives_no_value() {
    let mut lox = Lox::new("-\"a\"", &read_number);
    assert_eq!(lox.evaluate(&compute), None);
    assert!(lox.diagnostics.is_empty());
    assert_eq!(evaluate("!1"), None);
    assert_eq!(evaluate("-true"), None);
    assert_eq!(evaluate("!nil"), None);
}

#[test]
fn evaluating_twice_gives_the_same_value() {
    let mut lox = Lox::new("(2/3)+(2*3) >= 6", &read_number);
    let first = lox.evaluate(&compute);
    let second = lox.evaluate(&compute);
    assert_eq!(first, Some(Literal::Boolean(true)));
    assert_eq!(first, second);
}

#[test]
fn does_not_evaluate_after_a_lexical_error() {
    let mut lox = Lox::new("1 + 2 $", &read_number);
    assert!(lox.had_error());
    assert_eq!(lox.evaluate(&compute), None);
    assert_eq!(lox.reporter.errors, vec!["[line 1] Error: Unexpected character: $"]);
}

#[test]
fn does_not_evaluate_after_a_syntax_error() {
    let mut lox = Lox::new("1 +", &read_number);
    assert!(!lox.had_error());
    assert_eq!(lox.evaluate(&compute), None);
    assert!(lox.had_error());
    assert_eq!(lox.reporter.errors, vec!["[line 1] Error at the end: Expect expression."]);
    assert!(lox.diagnostics.is_empty());
}

#[test]
fn runs_to_the_printed_tree() {
    assert_eq!(run("1 + 2"), Some("(+ 1.0 2.0)".to_string()));
    assert_eq!(run("(2/3)+(2*3)"), Some("(+ (group (/ 2.0 3.0)) (group (* 2.0 3.0)))".to_string()));
    assert_eq!(run("!true == -03.50"), Some("(== (! true) (- 3.5))".to_string()));
    assert_eq!(run("\"a\" + nil"), Some("(+ a nil)".to_string()));
    assert_eq!(run("1 - 2 - 3"), Some("(- (- 1.0 2.0) 3.0)".to_string()));
    assert_eq!(run("1 < 2 == 3 >= 4"), Some("(== (< 1.0 2.0) (>= 3.0 4.0))".to_string()));
}

#[test]
fn runs_to_nothing_after_an_error() {
    let mut lox = Lox::new("(1 + 2", &read_number);
    assert_eq!(lox.run(&print_number), None);
    assert!(lox.had_error());
    assert_eq!(
        lox.reporter.errors,
        vec!["[line 1] Error at the end: Expect ')' after expression."]
    );
    assert_eq!(run(""), None);
    assert_eq!(run("\"open"), None);
}

#[test]
fn reports_errors_of_both_stages_in_order() {
    let mut lox = Lox::new("#\n(1 2)", &read_number);
    assert_eq!(lox.run(&print_number), None);
    assert_eq!(
        lox.reporter.errors,
        vec![
            "[line 1] Error: Unexpected character: #",
            "[line 2] Error at '2': Expect ')' after expression."
        ]
    );
}
