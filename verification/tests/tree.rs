use lox_interpreter::ast::{AstPrinter, Expression};
use lox_interpreter::interpreter::Interpreter;
use lox_interpreter::lexer::{Literal, Token, TokenType};
use lox_interpreter::number::Arithmetic;

fn compute(operation: Arithmetic, left: u64, right: u64) -> u64 {
    let (x, y) = (f64::from_bits(left), f64::from_bits(right));
    let result = match operation {
        Arithmetic::Add => x + y,
        Arithmetic::Subtract => x - y,
        Arithmetic::Multiply => x * y,
        Arithmetic::Divide => x / y,
    };
    result.to_bits()
}

fn print_number(bits: u64) -> String {
    format!("{:?}", f64::from_bits(bits))
}

fn number(value: f64) -> Literal {
    Literal::Number(value.to_bits())
}

fn literal(value: Literal) -> Expression {
    Expression::Literal(Some(value))
}

fn binary(left: Expression, kind: TokenType, lexeme: &str, right: Expression) -> Expression {
    Expression::Binary(Box::new(left), Token::new(kind, lexeme, None, 1), Box::new(right))
}

fn unary(kind: TokenType, lexeme: &str, operand: Expression) -> Expression {
    Expression::Unary(Token::new(kind, lexeme, None, 1), Box::new(operand))
}

fn evaluate(expr: &Expression) -> Option<Literal> {
    Interpreter::new().evaluate(expr, &compute)
}

#[test]
fn prints_ast() {
    let printer = AstPrinter::new();
    let one = Expression::Literal(Some(number(1.0)));
    let plus = Token::new(TokenType::Number, "+", None, 1);
    let two = Expression::Literal(Some(number(2.0)));
    let expr = Expression::Binary(Box::new(one), plus, Box::new(two));
    assert_eq!(printer.print(&expr, &print_number), "(+ 1.0 2.0)".to_string())
}

#[test]
fn interprets_number_addition() {
    let one = Expression::Literal(Some(number(1.0)));
    let plus = Token::new(TokenType::Plus, "+", None, 1);
    let two = Expression::Literal(Some(number(2.0)));
    let expr = Expression::Binary(Box::new(one), plus, Box::new(two));

    let mut interpreter = Interpreter::new();
    let result = interpreter.evaluate(&expr, &compute);
    assert!(result.is_some());
    assert_eq!(result.unwrap(), number(3.0));
}

#[test]
fn prints_every_kind_of_node() {
    let printer = AstPrinter::new();
    let expr = binary(
        unary(TokenType::Minus, "-", literal(number(123.0))),
        TokenType::Star,
        "*",
        Expression::Grouping(Box::new(literal(number(45.67)))),
    );
    assert_eq!(printer.print(&expr, &print_number), "(* (- 123.0) (group 45.67))");
    assert_eq!(printer.print(&literal(Literal::Boolean(true)), &print_number), "true");
    assert_eq!(printer.print(&literal(Literal::Boolean(false)), &print_number), "false");
    assert_eq!(printer.print(&literal(Literal::Null), &print_number), "nil");
    assert_eq!(printer.print(&Expression::Literal(None), &print_number), "nil");
    assert_eq!(
        printer.print(&literal(Literal::String("a b".to_string())), &print_number),
        "a b"
    );
}

#[test]
fn parenthesizes_any_number_of_expressions() {
    let printer = AstPrinter::new();
    let one = literal(number(1.0));
    let two = literal(Literal::String("two".to_string()));
    let three = unary(TokenType::Bang, "!", literal(Literal::Boolean(false)));
    assert_eq!(printer.parenthesize("list", vec![], &print_number), "(list)");
    assert_eq!(printer.parenthesize("list", vec![&one], &print_number), "(list 1.0)");
    assert_eq!(
        printer.parenthesize("list", vec![&one, &two, &three], &print_number),
        "(list 1.0 two (! false))"
    );
}

#[test]
fn prints_numbers_as_the_caller_prints_them() {
    let printer = AstPrinter::new();
    let expr = binary(literal(Literal::Number(7)), TokenType::Plus, "+", literal(Literal::Number(9)));
    assert_eq!(printer.print(&expr, &|bits: u64| format!("#{}", bits)), "(+ #7 #9)");
}

#[test]
fn a_literal_without_a_value_evaluates_to_nothing() {
    let mut interpreter = Interpreter::new();
    assert_eq!(interpreter.evaluate(&Expression::Literal(None), &compute), None);
    assert!(interpreter.diagnostics.is_empty());
    let sum = binary(Expression::Literal(None), TokenType::Plus, "+", literal(number(1.0)));
    assert_eq!(interpreter.evaluate(&sum, &compute), None);
    assert!(interpreter.diagnostics.is_empty());
}

#[test]
fn evaluates_each_arithmetic_operator() {
    let pair = |kind, lexeme| binary(literal(number(7.5)), kind, lexeme, literal(number(2.5)));
    assert_eq!(evaluate(&pair(TokenType::Plus, "+")), Some(number(10.0)));
    assert_eq!(evaluate(&pair(TokenType::Minus, "-")), Some(number(5.0)));
    assert_eq!(evaluate(&pair(TokenType::Star, "*")), Some(number(18.75)));
    assert_eq!(evaluate(&pair(TokenType::Slash, "/")), Some(number(3.0)));
}

#[test]
fn hands_the_operands_to_the_arithmetic_in_order() {
    let expr = binary(literal(Literal::Number(40)), TokenType::Minus, "-", literal(Literal::Number(2)));
    let mut interpreter = Interpreter::new();
    let seen = |operation: Arithmetic, left: u64, right: u64| {
        assert_eq!(operation, Arithmetic::Subtract);
        left * 100 + right
    };
    assert_eq!(interpreter.evaluate(&expr, &seen), Some(Literal::Number(4002)));
}

#[test]
fn joins_strings() {
    let expr = binary(
        literal(Literal::String("ab".to_string())),
        TokenType::Plus,
        "+",
        literal(Literal::String("".to_string())),
    );
    assert_eq!(evaluate(&expr), Some(Literal::String("ab".to_string())));
}

#[test]
fn negates_and_inverts() {
    assert_eq!(evaluate(&unary(TokenType::Minus, "-", literal(number(2.0)))), Some(number(-2.0)));
    assert_eq!(evaluate(&unary(TokenType::Minus, "-", literal(number(0.0)))), Some(number(-0.0)));
    assert_eq!(
        evaluate(&unary(TokenType::Bang, "!", literal(Literal::Boolean(false)))),
        Some(Literal::Boolean(true))
    );
    assert_eq!(evaluate(&unary(TokenType::Bang, "!", literal(number(2.0)))), None);
    assert_eq!(evaluate(&unary(TokenType::Minus, "-", literal(Literal::Boolean(true)))), None);
    assert_eq!(evaluate(&unary(TokenType::Plus, "+", literal(number(2.0)))), None);
}

#[test]
fn records_each_incompatible_pair() {
    let cases = vec![
        (TokenType::Plus, number(1.0), Literal::String("a".to_string())),
        (TokenType::Plus, Literal::Boolean(true), Literal::Boolean(true)),
        (TokenType::Minus, Literal::String("a".to_string()), Literal::String("b".to_string())),
        (TokenType::Star, Literal::Null, number(1.0)),
        (TokenType::Slash, number(1.0), Literal::Null),
        (TokenType::Less, Literal::String("a".to_string()), Literal::String("b".to_string())),
        (TokenType::GreaterEqual, Literal::Boolean(true), number(1.0)),
        (TokenType::And, number(1.0), number(1.0)),
    ];
    for (kind, left, right) in cases {
        let expr = binary(literal(left.clone()), kind, "?", literal(right.clone()));
        let mut interpreter = Interpreter::new();
        assert_eq!(interpreter.evaluate(&expr, &compute), None);
        assert_eq!(interpreter.diagnostics.len(), 1);
        assert_eq!(interpreter.diagnostics[0].operator, kind);
        assert_eq!(interpreter.diagnostics[0].left, left);
        assert_eq!(interpreter.diagnostics[0].right, right);
    }
}

#[test]
fn says_which_operands_an_operator_is_defined_for() {
    let n = number(1.0);
    let s = Literal::String("a".to_string());
    let b = Literal::Boolean(true);
    let op = |kind: TokenType| Token::new(kind, "?", None, 1);
    assert!(Interpreter::are_compatible(&op(TokenType::Plus), &n, &n));
    assert!(Interpreter::are_compatible(&op(TokenType::Plus), &s, &s));
    assert!(!Interpreter::are_compatible(&op(TokenType::Plus), &n, &s));
    assert!(!Interpreter::are_compatible(&op(TokenType::Plus), &b, &b));
    for kind in [TokenType::Minus, TokenType::Slash, TokenType::Star, TokenType::Greater,
        TokenType::GreaterEqual, TokenType::Less, TokenType::LessEqual]
    {
        assert!(Interpreter::are_compatible(&op(kind), &n, &n));
        assert!(!Interpreter::are_compatible(&op(kind), &s, &s));
        assert!(!Interpreter::are_compatible(&op(kind), &n, &Literal::Null));
    }
    for kind in [TokenType::BangEqual, TokenType::EqualEqual] {
        assert!(Interpreter::are_compatible(&op(kind), &n, &s));
        assert!(Interpreter::are_compatible(&op(kind), &Literal::Null, &b));
    }
    assert!(!Interpreter::are_compatible(&op(TokenType::Bang), &b, &b));
    assert!(!Interpreter::are_compatible(&op(TokenType::Eof), &n, &n));
}

#[test]
fn evaluates_a_binary_expression_from_its_parts() {
    let mut interpreter = Interpreter::new();
    let left = literal(number(8.0));
    let right = Expression::Grouping(Box::new(literal(number(2.0))));
    let slash = Token::new(TokenType::Slash, "/", None, 1);
    assert_eq!(interpreter.evaluate_binary(&left, &slash, &right, &compute), Some(number(4.0)));
    let less = Token::new(TokenType::Less, "<", None, 1);
    assert_eq!(
        interpreter.evaluate_binary(&left, &less, &right, &compute),
        Some(Literal::Boolean(false))
    );
}

#[test]
fn applies_an_operator_to_two_values() {
    let mut interpreter = Interpreter::new();
    let star = Token::new(TokenType::Star, "*", None, 1);
    let same = Token::new(TokenType::EqualEqual, "==", None, 1);
    assert_eq!(
        interpreter.apply_binary(&star, number(1.5), number(4.0), &compute),
        Some(number(6.0))
    );
    assert_eq!(
        interpreter.apply_binary(&same, number(1.5), Literal::Null, &compute),
        Some(Literal::Boolean(false))
    );
    assert!(interpreter.diagnostics.is_empty());
    assert_eq!(interpreter.apply_binary(&star, number(1.5), Literal::Null, &compute), None);
    assert_eq!(interpreter.diagnostics.len(), 1);
}

#[test]
fn keeps_the_mismatches_of_earlier_evaluations() {
    let mut interpreter = Interpreter::new();
    let bad = binary(literal(number(1.0)), TokenType::Plus, "+", literal(Literal::Null));
    let good = binary(literal(number(1.0)), TokenType::Plus, "+", literal(number(1.0)));
    assert_eq!(interpreter.evaluate(&bad, &compute), None);
    assert_eq!(interpreter.evaluate(&good, &compute), Some(number(2.0)));
    assert_eq!(interpreter.evaluate(&bad, &compute), None);
    assert_eq!(interpreter.diagnostics.len(), 2);
}

#[test]
fn interprets_to_the_line_that_shows_the_value() {
    let mut interpreter = Interpreter::new();
    let sum = binary(literal(number(1.0)), TokenType::Plus, "+", literal(number(2.0)));
    assert_eq!(interpreter.interpret(&sum, &compute, &print_number), "3.0");
    assert_eq!(interpreter.interpret(&literal(Literal::Null), &compute, &print_number), "nil");
    let bad = binary(literal(number(1.0)), TokenType::Plus, "+", literal(Literal::Null));
    assert_eq!(interpreter.interpret(&bad, &compute, &print_number), "");
    assert_eq!(interpreter.diagnostics.len(), 1);
    assert_eq!(interpreter.interpret(&Expression::Literal(None), &compute, &print_number), "");
}
