//! The parser: tokens in, one expression tree out.
//!
//! ```text
//! expression  → equality
//! equality    → comparison ( ( "!=" | "==" ) comparison )*
//! comparison  → term ( ( ">" | ">=" | "<" | "<=" ) term )*
//! term        → factor ( ( "-" | "+" ) factor )*
//! factor      → unary ( ( "/" | "*" ) unary )*
//! unary       → ( "!" | "-" ) unary | primary
//! primary     → NUMBER | STRING | "true" | "false" | "nil" | "(" expression ")"
//! ```
//!
//! What parsing yields is defined by [`parse_expression`], a function of the
//! tokens and of the position where parsing starts.

use crate::ast::{Expression, ExpressionView};
use crate::lexer::{token_views, Literal, LiteralView, Token, TokenType, TokenView};
use crate::reporter::{report_text, token_location, Reporter};
use vstd::prelude::*;

verus! {

/// Why a production could not be parsed.
#[derive(Clone, Copy, Debug, PartialEq, Eq, Structural)]
pub enum SyntaxError {
    /// No expression starts at the offending token.
    ExpectedExpression,
    /// A token of this kind is missing at the offending token.
    ExpectedToken(TokenType),
}

/// The four levels of left-associative binary operators, lowest precedence first.
pub enum Level {
    Equality,
    Comparison,
    Term,
    Factor,
}

/// The binary operators of a level.
pub open spec fn operators(level: Level) -> Seq<TokenType> {
    match level {
        Level::Equality => seq![TokenType::BangEqual, TokenType::EqualEqual],
        Level::Comparison => seq![
            TokenType::Greater,
            TokenType::GreaterEqual,
            TokenType::Less,
            TokenType::LessEqual,
        ],
        Level::Term => seq![TokenType::Minus, TokenType::Plus],
        Level::Factor => seq![TokenType::Slash, TokenType::Star],
    }
}

/// Whether a token of this kind is a binary operator of the level.
pub open spec fn is_operator(level: Level, kind: TokenType) -> bool {
    operators(level).contains(kind)
}

/// The prefix operators.
pub open spec fn prefixes() -> Seq<TokenType> {
    seq![TokenType::Bang, TokenType::Minus]
}

/// Whether a token of this kind is a prefix operator.
pub open spec fn is_prefix(kind: TokenType) -> bool {
    prefixes().contains(kind)
}

/// Whether a token of this kind starts a statement.
pub open spec fn starts_statement(kind: TokenType) -> bool {
    kind == TokenType::Class || kind == TokenType::Fun || kind == TokenType::Var || kind
        == TokenType::For || kind == TokenType::If || kind == TokenType::While || kind
        == TokenType::Print || kind == TokenType::Return
}

/// Token lists that can be parsed: not empty, and ending in the end-of-input token.
pub open spec fn well_terminated(tokens: Seq<TokenView>) -> bool {
    tokens.len() > 0 && tokens.last().token_type == TokenType::Eof
}

/// Whether `pos` is at the end-of-input token, or beyond the tokens.
pub open spec fn at_end(tokens: Seq<TokenView>, pos: int) -> bool {
    !(0 <= pos < tokens.len()) || tokens[pos].token_type == TokenType::Eof
}

/// Whether the token at `pos` is of kind `kind`; the end of input is of no kind.
pub open spec fn check_at(tokens: Seq<TokenView>, pos: int, kind: TokenType) -> bool {
    !at_end(tokens, pos) && tokens[pos].token_type == kind
}

/// Where error recovery that starts looking at `pos` stops: at the end of
/// input, after a semicolon, or before a token that starts a statement.
pub open spec fn synchronized_from(tokens: Seq<TokenView>, pos: int) -> int
    decreases tokens.len() - pos,
{
    if at_end(tokens, pos) {
        pos
    } else if pos >= 1 && tokens[pos - 1].token_type == TokenType::Semicolon {
        pos
    } else if starts_statement(tokens[pos].token_type) {
        pos
    } else {
        synchronized_from(tokens, pos + 1)
    }
}

/// Where error recovery stops after an error at `pos`: the offending token
/// is passed over, then tokens are skipped as [`synchronized_from`] says.
pub open spec fn synchronized(tokens: Seq<TokenView>, pos: int) -> int {
    if at_end(tokens, pos) {
        pos
    } else {
        synchronized_from(tokens, pos + 1)
    }
}

/// The message of a syntax error at the token at `pos`.
pub open spec fn error_text(tokens: Seq<TokenView>, pos: int, message: Seq<char>) -> Seq<char> {
    report_text(tokens[pos].line as nat, token_location(tokens[pos]), message)
}

/// What parsing a production yields: the expression or the error, how many
/// tokens were passed over, and the messages recorded.
pub struct Parsed {
    pub result: Result<ExpressionView, SyntaxError>,
    pub consumed: nat,
    pub errors: Seq<Seq<char>>,
}

/// `parsed`, after `before` more tokens that were consumed ahead of it.
pub open spec fn after(before: nat, parsed: Parsed) -> Parsed {
    Parsed { consumed: before + parsed.consumed, ..parsed }
}

/// How many tokens there are from `pos` on.
pub open spec fn remaining(tokens: Seq<TokenView>, pos: int) -> nat {
    if pos <= tokens.len() {
        (tokens.len() - pos) as nat
    } else {
        0
    }
}

/// A literal expression that took one token.
pub open spec fn one_token(value: Option<LiteralView>) -> Parsed {
    Parsed { result: Ok(ExpressionView::Literal(value)), consumed: 1, errors: Seq::empty() }
}

/// `primary → NUMBER | STRING | "true" | "false" | "nil" | "(" expression ")"`.
///
/// `nil` is the nil value. A number or a string is the value that its token
/// carries. After `(` and an expression a `)` must follow: where it does not,
/// that is an error at the token found instead, and tokens are skipped as
/// [`synchronized`] says. Where no alternative starts, that is an error at
/// the token found, and nothing is consumed.
pub open spec fn parse_primary(tokens: Seq<TokenView>, pos: int) -> Parsed
    decreases remaining(tokens, pos), 0nat,
{
    if check_at(tokens, pos, TokenType::False) {
        one_token(Some(LiteralView::Boolean(false)))
    } else if check_at(tokens, pos, TokenType::True) {
        one_token(Some(LiteralView::Boolean(true)))
    } else if check_at(tokens, pos, TokenType::Nil) {
        one_token(Some(LiteralView::Null))
    } else if check_at(tokens, pos, TokenType::Number) || check_at(tokens, pos, TokenType::String) {
        one_token(tokens[pos].literal)
    } else if check_at(tokens, pos, TokenType::LeftParen) {
        let inner = parse_expression(tokens, pos + 1);
        let close = pos + 1 + inner.consumed;
        match inner.result {
            Err(_) => after(1, inner),
            Ok(expr) => if check_at(tokens, close, TokenType::RightParen) {
                Parsed {
                    result: Ok(ExpressionView::Grouping(Box::new(expr))),
                    consumed: 2 + inner.consumed,
                    errors: Seq::empty(),
                }
            } else {
                Parsed {
                    result: Err(SyntaxError::ExpectedToken(TokenType::RightParen)),
                    consumed: (synchronized(tokens, close) - pos) as nat,
                    errors: seq![error_text(tokens, close, "Expect ')' after expression."@)],
                }
            },
        }
    } else {
        Parsed {
            result: Err(SyntaxError::ExpectedExpression),
            consumed: 0,
            errors: seq![error_text(tokens, pos, "Expect expression."@)],
        }
    }
}

/// `unary → ( "!" | "-" ) unary | primary`.
pub open spec fn parse_unary(tokens: Seq<TokenView>, pos: int) -> Parsed
    decreases remaining(tokens, pos), 1nat,
{
    if !at_end(tokens, pos) && is_prefix(tokens[pos].token_type) {
        let operand = parse_unary(tokens, pos + 1);
        match operand.result {
            Err(_) => after(1, operand),
            Ok(expr) => Parsed {
                result: Ok(ExpressionView::Unary(tokens[pos], Box::new(expr))),
                consumed: 1 + operand.consumed,
                errors: Seq::empty(),
            },
        }
    } else {
        parse_primary(tokens, pos)
    }
}

/// The rank of a level in the order of the productions.
pub open spec fn rank(level: Level) -> nat {
    match level {
        Level::Factor => 3,
        Level::Term => 5,
        Level::Comparison => 7,
        Level::Equality => 9,
    }
}

/// An operand of a level: a production of the next higher precedence.
pub open spec fn parse_operand(tokens: Seq<TokenView>, level: Level, pos: int) -> Parsed
    decreases remaining(tokens, pos), rank(level) - 1,
{
    match level {
        Level::Factor => parse_unary(tokens, pos),
        Level::Term => parse_level(tokens, Level::Factor, pos),
        Level::Comparison => parse_level(tokens, Level::Term, pos),
        Level::Equality => parse_level(tokens, Level::Comparison, pos),
    }
}

/// The rest of a level after the operand `left`: while an operator of the
/// level follows, it and one more operand are folded into `left`, so that
/// the operators associate to the left.
pub open spec fn parse_rest(
    tokens: Seq<TokenView>,
    level: Level,
    left: ExpressionView,
    pos: int,
) -> Parsed
    decreases remaining(tokens, pos), rank(level) - 1,
{
    if !at_end(tokens, pos) && is_operator(level, tokens[pos].token_type) {
        let right = parse_operand(tokens, level, pos + 1);
        match right.result {
            Err(_) => after(1, right),
            Ok(expr) => after(
                1 + right.consumed,
                parse_rest(
                    tokens,
                    level,
                    ExpressionView::Binary(Box::new(left), tokens[pos], Box::new(expr)),
                    pos + 1 + right.consumed,
                ),
            ),
        }
    } else {
        Parsed { result: Ok(left), consumed: 0, errors: Seq::empty() }
    }
}

/// A level: `operand ( operator operand )*`.
pub open spec fn parse_level(tokens: Seq<TokenView>, level: Level, pos: int) -> Parsed
    decreases remaining(tokens, pos), rank(level),
{
    let first = parse_operand(tokens, level, pos);
    match first.result {
        Err(_) => first,
        Ok(left) => after(first.consumed, parse_rest(tokens, level, left, pos + first.consumed)),
    }
}

/// `expression → equality`.
pub open spec fn parse_expression(tokens: Seq<TokenView>, pos: int) -> Parsed
    decreases remaining(tokens, pos), 10nat,
{
    parse_level(tokens, Level::Equality, pos)
}

/// The expression that parsing hands to its caller: the one parsed, or a
/// literal without a value in place of one that could not be parsed.
pub open spec fn parsed_or_placeholder(parsed: Parsed) -> ExpressionView {
    match parsed.result {
        Ok(expr) => expr,
        Err(_) => ExpressionView::Literal(None),
    }
}

/// The view of what a production returned.
pub open spec fn result_view(result: Result<Expression, SyntaxError>) -> Result<
    ExpressionView,
    SyntaxError,
> {
    match result {
        Ok(expr) => Ok(expr@),
        Err(error) => Err(error),
    }
}

/// A list of one kind holds that kind and no other.
pub proof fn lemma_one_kind(only: TokenType, kind: TokenType)
    ensures
        seq![only].contains(kind) == (kind == only),
{
    let kinds = seq![only];
    if kind == only {
        assert(kinds[0] == kind);
    }
}

/// A list of two kinds holds those two and no other.
pub proof fn lemma_two_kinds(first: TokenType, second: TokenType, kind: TokenType)
    ensures
        seq![first, second].contains(kind) == (kind == first || kind == second),
{
    let kinds = seq![first, second];
    if kind == first {
        assert(kinds[0] == kind);
    }
    if kind == second {
        assert(kinds[1] == kind);
    }
}

/// A list of four kinds holds those four and no other.
pub proof fn lemma_four_kinds(
    first: TokenType,
    second: TokenType,
    third: TokenType,
    fourth: TokenType,
    kind: TokenType,
)
    ensures
        seq![first, second, third, fourth].contains(kind) == (kind == first || kind == second
            || kind == third || kind == fourth),
{
    let kinds = seq![first, second, third, fourth];
    if kind == first {
        assert(kinds[0] == kind);
    }
    if kind == second {
        assert(kinds[1] == kind);
    }
    if kind == third {
        assert(kinds[2] == kind);
    }
    if kind == fourth {
        assert(kinds[3] == kind);
    }
}

/// Error recovery never moves backwards and never past the end of input.
pub proof fn lemma_synchronized_from(tokens: Seq<TokenView>, pos: int)
    requires
        well_terminated(tokens),
        0 <= pos < tokens.len(),
    ensures
        pos <= synchronized_from(tokens, pos) < tokens.len(),
    decreases tokens.len() - pos,
{
    if !at_end(tokens, pos) && !(pos >= 1 && tokens[pos - 1].token_type == TokenType::Semicolon)
        && !starts_statement(tokens[pos].token_type) {
        lemma_synchronized_from(tokens, pos + 1);
    }
}

/// What holds of whatever a production yields from a position within the
/// tokens: it stops within the tokens, and it records one error if it
/// fails and none if it succeeds.
pub open spec fn is_sound(tokens: Seq<TokenView>, pos: int, parsed: Parsed) -> bool {
    &&& pos + parsed.consumed < tokens.len()
    &&& parsed.result is Ok ==> parsed.errors.len() == 0
    &&& parsed.result is Err ==> parsed.errors.len() == 1
}

/// A primary stops within the tokens and records an error just when it fails.
pub proof fn lemma_primary_is_sound(tokens: Seq<TokenView>, pos: int)
    requires
        well_terminated(tokens),
        0 <= pos < tokens.len(),
    ensures
        is_sound(tokens, pos, parse_primary(tokens, pos)),
    decreases remaining(tokens, pos), 0nat,
{
    if check_at(tokens, pos, TokenType::False) || check_at(tokens, pos, TokenType::True)
        || check_at(tokens, pos, TokenType::Nil) || check_at(tokens, pos, TokenType::Number)
        || check_at(tokens, pos, TokenType::String) {
    } else if check_at(tokens, pos, TokenType::LeftParen) {
        lemma_expression_is_sound(tokens, pos + 1);
        let inner = parse_expression(tokens, pos + 1);
        let close = pos + 1 + inner.consumed;
        if inner.result is Ok && !check_at(tokens, close, TokenType::RightParen) {
            if !at_end(tokens, close) {
                lemma_synchronized_from(tokens, close + 1);
            }
        }
    }
}

/// A unary expression stops within the tokens and records an error just when it fails.
pub proof fn lemma_unary_is_sound(tokens: Seq<TokenView>, pos: int)
    requires
        well_terminated(tokens),
        0 <= pos < tokens.len(),
    ensures
        is_sound(tokens, pos, parse_unary(tokens, pos)),
    decreases remaining(tokens, pos), 1nat,
{
    if !at_end(tokens, pos) && is_prefix(tokens[pos].token_type) {
        lemma_unary_is_sound(tokens, pos + 1);
    } else {
        lemma_primary_is_sound(tokens, pos);
    }
}

/// An operand stops within the tokens and records an error just when it fails.
pub proof fn lemma_operand_is_sound(tokens: Seq<TokenView>, level: Level, pos: int)
    requires
        well_terminated(tokens),
        0 <= pos < tokens.len(),
    ensures
        is_sound(tokens, pos, parse_operand(tokens, level, pos)),
    decreases remaining(tokens, pos), rank(level) - 1,
{
    match level {
        Level::Factor => lemma_unary_is_sound(tokens, pos),
        Level::Term => lemma_level_is_sound(tokens, Level::Factor, pos),
        Level::Comparison => lemma_level_is_sound(tokens, Level::Term, pos),
        Level::Equality => lemma_level_is_sound(tokens, Level::Comparison, pos),
    }
}

/// The rest of a level stops within the tokens and records an error just when it fails.
pub proof fn lemma_rest_is_sound(
    tokens: Seq<TokenView>,
    level: Level,
    left: ExpressionView,
    pos: int,
)
    requires
        well_terminated(tokens),
        0 <= pos < tokens.len(),
    ensures
        is_sound(tokens, pos, parse_rest(tokens, level, left, pos)),
    decreases remaining(tokens, pos), rank(level) - 1,
{
    if !at_end(tokens, pos) && is_operator(level, tokens[pos].token_type) {
        lemma_operand_is_sound(tokens, level, pos + 1);
        let right = parse_operand(tokens, level, pos + 1);
        if let Ok(expr) = right.result {
            lemma_rest_is_sound(
                tokens,
                level,
                ExpressionView::Binary(Box::new(left), tokens[pos], Box::new(expr)),
                pos + 1 + right.consumed,
            );
        }
    }
}

/// A level stops within the tokens and records an error just when it fails.
pub proof fn lemma_level_is_sound(tokens: Seq<TokenView>, level: Level, pos: int)
    requires
        well_terminated(tokens),
        0 <= pos < tokens.len(),
    ensures
        is_sound(tokens, pos, parse_level(tokens, level, pos)),
    decreases remaining(tokens, pos), rank(level),
{
    lemma_operand_is_sound(tokens, level, pos);
    let first = parse_operand(tokens, level, pos);
    if let Ok(left) = first.result {
        lemma_rest_is_sound(tokens, level, left, pos + first.consumed);
    }
}

/// Parsing an expression never reads past the end-of-input token, and it
/// records a syntax error just when it fails: one error then, none otherwise.
pub proof fn lemma_expression_is_sound(tokens: Seq<TokenView>, pos: int)
    requires
        well_terminated(tokens),
        0 <= pos < tokens.len(),
    ensures
        is_sound(tokens, pos, parse_expression(tokens, pos)),
    decreases remaining(tokens, pos), 10nat,
{
    lemma_level_is_sound(tokens, Level::Equality, pos);
}

/// Whether `token` is one of the tokens from `from` up to `to`.
pub open spec fn is_among(tokens: Seq<TokenView>, from: int, to: int, token: TokenView) -> bool {
    exists|i: int| 0 <= from <= i < to <= tokens.len() && #[trigger] tokens[i] == token
}

/// Whether a token of this kind is a binary operator of some level.
pub open spec fn is_binary_operator(kind: TokenType) -> bool {
    is_operator(Level::Equality, kind) || is_operator(Level::Comparison, kind) || is_operator(
        Level::Term,
        kind,
    ) || is_operator(Level::Factor, kind)
}

/// Whether every token in `expr` is an operator, prefix in a unary
/// expression and binary in a binary one, and one of the tokens from `from`
/// up to `to`, kept as it stands there.
pub open spec fn is_built_from(
    expr: ExpressionView,
    tokens: Seq<TokenView>,
    from: int,
    to: int,
) -> bool
    decreases expr,
{
    match expr {
        ExpressionView::Literal(_) => true,
        ExpressionView::Grouping(inner) => is_built_from(*inner, tokens, from, to),
        ExpressionView::Unary(operator, operand) => {
            &&& is_prefix(operator.token_type)
            &&& is_among(tokens, from, to, operator)
            &&& is_built_from(*operand, tokens, from, to)
        },
        ExpressionView::Binary(left, operator, right) => {
            &&& is_binary_operator(operator.token_type)
            &&& is_among(tokens, from, to, operator)
            &&& is_built_from(*left, tokens, from, to)
            &&& is_built_from(*right, tokens, from, to)
        },
    }
}

/// Whether what a production yields from `pos`, if it is an expression, is
/// built from the tokens from `from` up to where the production stopped.
pub open spec fn is_built(tokens: Seq<TokenView>, from: int, pos: int, parsed: Parsed) -> bool {
    parsed.result matches Ok(expr) ==> is_built_from(expr, tokens, from, pos + parsed.consumed)
}

/// An expression built from some tokens is built from every range that holds them.
pub proof fn lemma_built_from_wider(
    expr: ExpressionView,
    tokens: Seq<TokenView>,
    from: int,
    to: int,
    wider_from: int,
    wider_to: int,
)
    requires
        is_built_from(expr, tokens, from, to),
        0 <= wider_from <= from,
        to <= wider_to <= tokens.len(),
    ensures
        is_built_from(expr, tokens, wider_from, wider_to),
    decreases expr,
{
    match expr {
        ExpressionView::Literal(_) => {},
        ExpressionView::Grouping(inner) => {
            lemma_built_from_wider(*inner, tokens, from, to, wider_from, wider_to);
        },
        ExpressionView::Unary(operator, operand) => {
            let i = choose|i: int|
                0 <= from <= i < to <= tokens.len() && #[trigger] tokens[i] == operator;
            assert(tokens[i] == operator);
            lemma_built_from_wider(*operand, tokens, from, to, wider_from, wider_to);
        },
        ExpressionView::Binary(left, operator, right) => {
            let i = choose|i: int|
                0 <= from <= i < to <= tokens.len() && #[trigger] tokens[i] == operator;
            assert(tokens[i] == operator);
            lemma_built_from_wider(*left, tokens, from, to, wider_from, wider_to);
            lemma_built_from_wider(*right, tokens, from, to, wider_from, wider_to);
        },
    }
}

/// A primary holds no token but operators that it consumed.
pub proof fn lemma_primary_is_built(tokens: Seq<TokenView>, pos: int)
    requires
        well_terminated(tokens),
        0 <= pos < tokens.len(),
    ensures
        is_built(tokens, pos, pos, parse_primary(tokens, pos)),
    decreases remaining(tokens, pos), 0nat,
{
    if check_at(tokens, pos, TokenType::False) || check_at(tokens, pos, TokenType::True)
        || check_at(tokens, pos, TokenType::Nil) || check_at(tokens, pos, TokenType::Number)
        || check_at(tokens, pos, TokenType::String) {
    } else if check_at(tokens, pos, TokenType::LeftParen) {
        lemma_expression_is_built(tokens, pos + 1);
        lemma_expression_is_sound(tokens, pos + 1);
        let inner = parse_expression(tokens, pos + 1);
        let close = pos + 1 + inner.consumed;
        if let Ok(expr) = inner.result {
            if check_at(tokens, close, TokenType::RightParen) {
                lemma_built_from_wider(expr, tokens, pos + 1, close, pos, close + 1);
            }
        }
    }
}

/// A unary expression holds no token but operators that it consumed.
pub proof fn lemma_unary_is_built(tokens: Seq<TokenView>, pos: int)
    requires
        well_terminated(tokens),
        0 <= pos < tokens.len(),
    ensures
        is_built(tokens, pos, pos, parse_unary(tokens, pos)),
    decreases remaining(tokens, pos), 1nat,
{
    if !at_end(tokens, pos) && is_prefix(tokens[pos].token_type) {
        lemma_unary_is_built(tokens, pos + 1);
        lemma_unary_is_sound(tokens, pos + 1);
        let operand = parse_unary(tokens, pos + 1);
        if let Ok(expr) = operand.result {
            let to = pos + 1 + operand.consumed;
            lemma_built_from_wider(expr, tokens, pos + 1, to, pos, to);
            assert(tokens[pos] == tokens[pos]);
        }
    } else {
        lemma_primary_is_built(tokens, pos);
    }
}

/// An operand holds no token but operators that it consumed.
pub proof fn lemma_operand_is_built(tokens: Seq<TokenView>, level: Level, pos: int)
    requires
        well_terminated(tokens),
        0 <= pos < tokens.len(),
    ensures
        is_built(tokens, pos, pos, parse_operand(tokens, level, pos)),
    decreases remaining(tokens, pos), rank(level) - 1,
{
    match level {
        Level::Factor => lemma_unary_is_built(tokens, pos),
        Level::Term => lemma_level_is_built(tokens, Level::Factor, pos),
        Level::Comparison => lemma_level_is_built(tokens, Level::Term, pos),
        Level::Equality => lemma_level_is_built(tokens, Level::Comparison, pos),
    }
}

/// The rest of a level adds no token but operators that it consumed.
pub proof fn lemma_rest_is_built(
    tokens: Seq<TokenView>,
    level: Level,
    left: ExpressionView,
    from: int,
    pos: int,
)
    requires
        well_terminated(tokens),
        0 <= from <= pos < tokens.len(),
        is_built_from(left, tokens, from, pos),
    ensures
        is_built(tokens, from, pos, parse_rest(tokens, level, left, pos)),
    decreases remaining(tokens, pos), rank(level) - 1,
{
    if !at_end(tokens, pos) && is_operator(level, tokens[pos].token_type) {
        lemma_operand_is_built(tokens, level, pos + 1);
        lemma_operand_is_sound(tokens, level, pos + 1);
        let right = parse_operand(tokens, level, pos + 1);
        if let Ok(expr) = right.result {
            let next = pos + 1 + right.consumed;
            lemma_built_from_wider(left, tokens, from, pos, from, next);
            lemma_built_from_wider(expr, tokens, pos + 1, next, from, next);
            assert(tokens[pos] == tokens[pos]);
            let folded = ExpressionView::Binary(Box::new(left), tokens[pos], Box::new(expr));
            assert(is_built_from(folded, tokens, from, next));
            lemma_rest_is_built(tokens, level, folded, from, next);
        }
    }
}

/// A level holds no token but operators that it consumed.
pub proof fn lemma_level_is_built(tokens: Seq<TokenView>, level: Level, pos: int)
    requires
        well_terminated(tokens),
        0 <= pos < tokens.len(),
    ensures
        is_built(tokens, pos, pos, parse_level(tokens, level, pos)),
    decreases remaining(tokens, pos), rank(level),
{
    lemma_operand_is_built(tokens, level, pos);
    lemma_operand_is_sound(tokens, level, pos);
    let first = parse_operand(tokens, level, pos);
    if let Ok(left) = first.result {
        lemma_rest_is_built(tokens, level, left, pos, pos + first.consumed);
    }
}

/// A parsed expression holds no token other than operator tokens that
/// were consumed from the tokens, with their lexemes and lines as they were.
pub proof fn lemma_expression_is_built(tokens: Seq<TokenView>, pos: int)
    requires
        well_terminated(tokens),
        0 <= pos < tokens.len(),
    ensures
        is_built(tokens, pos, pos, parse_expression(tokens, pos)),
    decreases remaining(tokens, pos), 10nat,
{
    lemma_level_is_built(tokens, Level::Equality, pos);
}

pub struct Parser {
    pub tokens: Vec<Token>,
    pub current: usize,
    pub reporter: Reporter,
}

impl Parser {
    /// The tokens that are being parsed.
    pub open spec fn stream(&self) -> Seq<TokenView> {
        token_views(self.tokens@)
    }

    /// What holds of every parser: its tokens end in the end-of-input
    /// token, and its position is at one of them.
    pub open spec fn wf(&self) -> bool {
        well_terminated(self.stream()) && self.current < self.tokens.len()
    }

    /// Whether the parser got from `before` to `self` and to `result` as
    /// `parsed` says: same tokens, `parsed.consumed` tokens further, with
    /// `parsed.errors` recorded after what was recorded before.
    pub open spec fn yields(
        &self,
        before: Parser,
        result: Result<Expression, SyntaxError>,
        parsed: Parsed,
    ) -> bool {
        &&& self.wf()
        &&& self.tokens == before.tokens
        &&& self.current == before.current + parsed.consumed
        &&& self.reporter@ =~= before.reporter@ + parsed.errors
        &&& result is Ok ==> self.reporter@ =~= before.reporter@
        &&& result_view(result) == parsed.result
    }

    /// A parser at the first of `tokens` that will record its errors in `reporter`.
    pub fn new(tokens: &[Token], reporter: Reporter) -> (parser: Self)
        requires
            well_terminated(token_views(tokens@)),
        ensures
            parser.wf(),
            parser.stream() == token_views(tokens@),
            parser.current == 0,
            parser.reporter == reporter,
    {
        let mut copy: Vec<Token> = Vec::new();
        let mut i: usize = 0;
        while i < tokens.len()
            invariant
                0 <= i <= tokens.len(),
                copy@.len() == i,
                forall|j: int| 0 <= j < i ==> copy@[j]@ == tokens@[j]@,
            decreases tokens.len() - i,
        {
            copy.push(tokens[i].clone());
            i += 1;
        }
        assert(token_views(copy@) =~= token_views(tokens@));
        Self { tokens: copy, current: 0, reporter }
    }

    /// Whether a syntax error has been recorded, or an error before parsing began.
    pub fn had_error(&self) -> (r: bool)
        ensures
            r == (self.reporter@.len() > 0),
    {
        self.reporter.had_error()
    }

    /// Parses one expression. Where that fails, the error has been
    /// recorded and a literal without a value is returned in its place.
    pub fn parse(&mut self) -> (expr: Expression)
        requires
            old(self).wf(),
        ensures
            final(self).wf(),
            final(self).tokens == old(self).tokens,
            ({
                let parsed = parse_expression(old(self).stream(), old(self).current as int);
                &&& expr@ == parsed_or_placeholder(parsed)
                &&& final(self).current == old(self).current + parsed.consumed
                &&& final(self).reporter@ == old(self).reporter@ + parsed.errors
            }),
    {
        match self.expression() {
            Ok(expr) => expr,
            Err(_) => Expression::Literal(None),
        }
    }

    /// Parses one expression, or fails with the reason; the error has
    /// been recorded then.
    pub fn expression(&mut self) -> (result: Result<Expression, SyntaxError>)
        requires
            old(self).wf(),
        ensures
            final(self).yields(
                *old(self),
                result,
                parse_expression(old(self).stream(), old(self).current as int),
            ),
        decreases old(self).tokens.len() - old(self).current, 10nat,
    {
        self.equality()
    }

    fn equality(&mut self) -> (result: Result<Expression, SyntaxError>)
        requires
            old(self).wf(),
        ensures
            final(self).yields(
                *old(self),
                result,
                parse_level(old(self).stream(), Level::Equality, old(self).current as int),
            ),
        decreases old(self).tokens.len() - old(self).current, 9nat,
    {
        let ghost stream = self.stream();
        let ghost start = self.current as int;
        let mut expr = self.comparison()?;
        while self.matches(vec![TokenType::BangEqual, TokenType::EqualEqual])
            invariant
                self.wf(),
                self.tokens == old(self).tokens,
                self.reporter@ =~= old(self).reporter@,
                stream == old(self).stream(),
                start == old(self).current <= self.current,
                parse_level(stream, Level::Equality, start) == after(
                    (self.current - start) as nat,
                    parse_rest(stream, Level::Equality, expr@, self.current as int),
                ),
            decreases self.tokens.len() - self.current,
        {
            let ghost left = expr@;
            let ghost at = self.current - 1;
            proof {
                lemma_two_kinds(TokenType::BangEqual, TokenType::EqualEqual, stream[at].token_type);
                assert(is_operator(Level::Equality, stream[at].token_type));
            }
            let operator = self.previous().clone();
            let right = self.comparison()?;
            expr = Expression::Binary(Box::new(expr), operator, Box::new(right));
            proof {
                let operand = parse_operand(stream, Level::Equality, at + 1);
                assert(operand == parse_level(stream, Level::Comparison, at + 1));
                assert(parse_rest(stream, Level::Equality, left, at) == after(
                    1 + operand.consumed,
                    parse_rest(stream, Level::Equality, expr@, self.current as int),
                ));
            }
        }
        proof {
            lemma_two_kinds(
                TokenType::BangEqual,
                TokenType::EqualEqual,
                stream[self.current as int].token_type,
            );
        }
        Ok(expr)
    }

    fn comparison(&mut self) -> (result: Result<Expression, SyntaxError>)
        requires
            old(self).wf(),
        ensures
            final(self).yields(
                *old(self),
                result,
                parse_level(old(self).stream(), Level::Comparison, old(self).current as int),
            ),
        decreases old(self).tokens.len() - old(self).current, 7nat,
    {
        let ghost stream = self.stream();
        let ghost start = self.current as int;
        let mut expr = self.term()?;
        while self.matches(
            vec![
                TokenType::Greater,
                TokenType::GreaterEqual,
                TokenType::Less,
                TokenType::LessEqual,
            ],
        )
            invariant
                self.wf(),
                self.tokens == old(self).tokens,
                self.reporter@ =~= old(self).reporter@,
                stream == old(self).stream(),
                start == old(self).current <= self.current,
                parse_level(stream, Level::Comparison, start) == after(
                    (self.current - start) as nat,
                    parse_rest(stream, Level::Comparison, expr@, self.current as int),
                ),
            decreases self.tokens.len() - self.current,
        {
            let ghost left = expr@;
            let ghost at = self.current - 1;
            proof {
                lemma_four_kinds(
                    TokenType::Greater,
                    TokenType::GreaterEqual,
                    TokenType::Less,
                    TokenType::LessEqual,
                    stream[at].token_type,
                );
                assert(is_operator(Level::Comparison, stream[at].token_type));
            }
            let operator = self.previous().clone();
            let right = self.term()?;
            expr = Expression::Binary(Box::new(expr), operator, Box::new(right));
            proof {
                let operand = parse_operand(stream, Level::Comparison, at + 1);
                assert(operand == parse_level(stream, Level::Term, at + 1));
                assert(parse_rest(stream, Level::Comparison, left, at) == after(
                    1 + operand.consumed,
                    parse_rest(stream, Level::Comparison, expr@, self.current as int),
                ));
            }
        }
        proof {
            lemma_four_kinds(
                TokenType::Greater,
                TokenType::GreaterEqual,
                TokenType::Less,
                TokenType::LessEqual,
                stream[self.current as int].token_type,
            );
        }
        Ok(expr)
    }

    fn term(&mut self) -> (result: Result<Expression, SyntaxError>)
        requires
            old(self).wf(),
        ensures
            final(self).yields(
                *old(self),
                result,
                parse_level(old(self).stream(), Level::Term, old(self).current as int),
            ),
        decreases old(self).tokens.len() - old(self).current, 5nat,
    {
        let ghost stream = self.stream();
        let ghost start = self.current as int;
        let mut expr = self.factor()?;
        while self.matches(vec![TokenType::Minus, TokenType::Plus])
            invariant
                self.wf(),
                self.tokens == old(self).tokens,
                self.reporter@ =~= old(self).reporter@,
                stream == old(self).stream(),
                start == old(self).current <= self.current,
                parse_level(stream, Level::Term, start) == after(
                    (self.current - start) as nat,
                    parse_rest(stream, Level::Term, expr@, self.current as int),
                ),
            decreases self.tokens.len() - self.current,
        {
            let ghost left = expr@;
            let ghost at = self.current - 1;
            proof {
                lemma_two_kinds(TokenType::Minus, TokenType::Plus, stream[at].token_type);
                assert(is_operator(Level::Term, stream[at].token_type));
            }
            let operator = self.previous().clone();
            let right = self.factor()?;
            expr = Expression::Binary(Box::new(expr), operator, Box::new(right));
            proof {
                let operand = parse_operand(stream, Level::Term, at + 1);
                assert(operand == parse_level(stream, Level::Factor, at + 1));
                assert(parse_rest(stream, Level::Term, left, at) == after(
                    1 + operand.consumed,
                    parse_rest(stream, Level::Term, expr@, self.current as int),
                ));
            }
        }
        proof {
            lemma_two_kinds(
                TokenType::Minus,
                TokenType::Plus,
                stream[self.current as int].token_type,
            );
        }
        Ok(expr)
    }

    fn factor(&mut self) -> (result: Result<Expression, SyntaxError>)
        requires
            old(self).wf(),
        ensures
            final(self).yields(
                *old(self),
                result,
                parse_level(old(self).stream(), Level::Factor, old(self).current as int),
            ),
        decreases old(self).tokens.len() - old(self).current, 3nat,
    {
        let ghost stream = self.stream();
        let ghost start = self.current as int;
        let mut expr = self.unary()?;
        while self.matches(vec![TokenType::Slash, TokenType::Star])
            invariant
                self.wf(),
                self.tokens == old(self).tokens,
                self.reporter@ =~= old(self).reporter@,
                stream == old(self).stream(),
                start == old(self).current <= self.current,
                parse_level(stream, Level::Factor, start) == after(
                    (self.current - start) as nat,
                    parse_rest(stream, Level::Factor, expr@, self.current as int),
                ),
            decreases self.tokens.len() - self.current,
        {
            let ghost left = expr@;
            let ghost at = self.current - 1;
            proof {
                lemma_two_kinds(TokenType::Slash, TokenType::Star, stream[at].token_type);
                assert(is_operator(Level::Factor, stream[at].token_type));
            }
            let operator = self.previous().clone();
            let right = self.unary()?;
            expr = Expression::Binary(Box::new(expr), operator, Box::new(right));
            proof {
                let operand = parse_operand(stream, Level::Factor, at + 1);
                assert(operand == parse_unary(stream, at + 1));
                assert(parse_rest(stream, Level::Factor, left, at) == after(
                    1 + operand.consumed,
                    parse_rest(stream, Level::Factor, expr@, self.current as int),
                ));
            }
        }
        proof {
            lemma_two_kinds(
                TokenType::Slash,
                TokenType::Star,
                stream[self.current as int].token_type,
            );
        }
        Ok(expr)
    }

    fn unary(&mut self) -> (result: Result<Expression, SyntaxError>)
        requires
            old(self).wf(),
        ensures
            final(self).yields(
                *old(self),
                result,
                parse_unary(old(self).stream(), old(self).current as int),
            ),
        decreases old(self).tokens.len() - old(self).current, 1nat,
    {
        proof {
            lemma_two_kinds(
                TokenType::Bang,
                TokenType::Minus,
                self.stream()[self.current as int].token_type,
            );
        }
        if self.matches(vec![TokenType::Bang, TokenType::Minus]) {
            let operator = self.previous().clone();
            let right = self.unary()?;
            return Ok(Expression::Unary(operator, Box::new(right)));
        }
        self.primary()
    }

    fn primary(&mut self) -> (result: Result<Expression, SyntaxError>)
        requires
            old(self).wf(),
        ensures
            final(self).yields(
                *old(self),
                result,
                parse_primary(old(self).stream(), old(self).current as int),
            ),
        decreases old(self).tokens.len() - old(self).current, 0nat,
    {
        let ghost kind = self.stream()[self.current as int].token_type;
        proof {
            lemma_one_kind(TokenType::False, kind);
            lemma_one_kind(TokenType::True, kind);
            lemma_one_kind(TokenType::Nil, kind);
            lemma_two_kinds(TokenType::Number, TokenType::String, kind);
            lemma_one_kind(TokenType::LeftParen, kind);
        }
        if self.matches(vec![TokenType::False]) {
            return Ok(Expression::Literal(Some(Literal::Boolean(false))));
        }
        if self.matches(vec![TokenType::True]) {
            return Ok(Expression::Literal(Some(Literal::Boolean(true))));
        }
        if self.matches(vec![TokenType::Nil]) {
            return Ok(Expression::Literal(Some(Literal::Null)));
        }
        if self.matches(vec![TokenType::Number, TokenType::String]) {
            return Ok(Expression::Literal(self.previous().clone().literal));
        }
        if self.matches(vec![TokenType::LeftParen]) {
            let expr = self.expression()?;
            return match self.consume(TokenType::RightParen, "Expect ')' after expression.") {
                Ok(()) => Ok(Expression::Grouping(Box::new(expr))),
                Err(error) => {
                    self.synchronize();
                    Err(error)
                },
            };
        }
        Err(self.error("Expect expression.", SyntaxError::ExpectedExpression))
    }

    /// Consumes the current token if it is of kind `token_type`; records
    /// `message` as an error at it if it is not.
    fn consume(&mut self, token_type: TokenType, message: &str) -> (result: Result<(), SyntaxError>)
        requires
            old(self).wf(),
        ensures
            final(self).wf(),
            final(self).tokens == old(self).tokens,
            result is Ok == check_at(old(self).stream(), old(self).current as int, token_type),
            result is Ok ==> final(self).current == old(self).current + 1 && final(self).reporter
                == old(self).reporter,
            result is Err ==> {
                &&& result == Err::<(), SyntaxError>(SyntaxError::ExpectedToken(token_type))
                &&& final(self).current == old(self).current
                &&& final(self).reporter@ == old(self).reporter@.push(
                    error_text(old(self).stream(), old(self).current as int, message@),
                )
            },
    {
        if self.check(token_type) {
            self.advance();
            return Ok(());
        }
        Err(self.error(message, SyntaxError::ExpectedToken(token_type)))
    }

    /// Records `message` as an error at the current token, and hands `error` back.
    fn error(&mut self, message: &str, error: SyntaxError) -> (r: SyntaxError)
        requires
            old(self).wf(),
        ensures
            r == error,
            final(self).wf(),
            final(self).tokens == old(self).tokens,
            final(self).current == old(self).current,
            final(self).reporter@ == old(self).reporter@.push(
                error_text(old(self).stream(), old(self).current as int, message@),
            ),
    {
        let token = self.peek().clone();
        self.reporter.error(token, message);
        error
    }

    /// Discards tokens until the next statement begins.
    fn synchronize(&mut self)
        requires
            old(self).wf(),
        ensures
            final(self).wf(),
            final(self).current == synchronized(old(self).stream(), old(self).current as int),
            final(self).current >= old(self).current,
            *final(self) == (Parser { current: final(self).current, ..*old(self) }),
    {
        let ghost stream = self.stream();
        self.advance();

        while !self.is_at_end()
            invariant
                self.wf(),
                *self == (Parser { current: self.current, ..*old(self) }),
                stream == old(self).stream(),
                self.current >= old(self).current,
                self.current >= 1 || at_end(stream, self.current as int),
                synchronized_from(stream, self.current as int) == synchronized(
                    stream,
                    old(self).current as int,
                ),
            decreases self.tokens.len() - self.current,
        {
            if self.previous().token_type == TokenType::Semicolon {
                return ;
            }
            match self.peek().token_type {
                TokenType::Class
                | TokenType::Fun
                | TokenType::Var
                | TokenType::For
                | TokenType::If
                | TokenType::While
                | TokenType::Print
                | TokenType::Return => {
                    return ;
                },
                _ => {
                    self.advance();
                },
            }
        }
    }

    /// Check whether the current token matches any of `token_types`, and consume it if so.
    fn matches(&mut self, token_types: Vec<TokenType>) -> (matched: bool)
        requires
            old(self).wf(),
        ensures
            final(self).wf(),
            matched == (!at_end(old(self).stream(), old(self).current as int)
                && token_types@.contains(
                old(self).stream()[old(self).current as int].token_type,
            )),
            *final(self) == (Parser {
                current: if matched {
                    (old(self).current + 1) as usize
                } else {
                    old(self).current
                },
                ..*old(self)
            }),
            matched ==> old(self).current + 1 < old(self).tokens.len(),
    {
        let mut i: usize = 0;
        while i < token_types.len()
            invariant
                self.wf(),
                *self == *old(self),
                0 <= i <= token_types.len(),
                forall|j: int|
                    0 <= j < i ==> !check_at(
                        self.stream(),
                        self.current as int,
                        #[trigger] token_types@[j],
                    ),
            decreases token_types.len() - i,
        {
            if self.check(token_types[i]) {
                self.advance();
                return true;
            }
            i += 1;
        }
        false
    }

    /// Checks whether the current token is of kind `token_type`.
    fn check(&self, token_type: TokenType) -> (r: bool)
        requires
            self.wf(),
        ensures
            r == check_at(self.stream(), self.current as int, token_type),
    {
        if self.is_at_end() {
            return false;
        }
        self.peek().token_type == token_type
    }

    /// Consumes the current token, unless it is the end of input.
    fn advance(&mut self)
        requires
            old(self).wf(),
        ensures
            final(self).wf(),
            *final(self) == (Parser {
                current: if at_end(old(self).stream(), old(self).current as int) {
                    old(self).current
                } else {
                    (old(self).current + 1) as usize
                },
                ..*old(self)
            }),
    {
        if !self.is_at_end() {
            self.current += 1;
        }
    }

    fn is_at_end(&self) -> (r: bool)
        requires
            self.wf(),
        ensures
            r == at_end(self.stream(), self.current as int),
    {
        self.peek().token_type == TokenType::Eof
    }

    /// Returns the current token, yet to be consumed.
    fn peek(&self) -> (token: &Token)
        requires
            self.wf(),
        ensures
            token@ == self.stream()[self.current as int],
    {
        &self.tokens[self.current]
    }

    /// Returns the most recently consumed token.
    fn previous(&self) -> (token: &Token)
        requires
            self.wf(),
            self.current >= 1,
        ensures
            token@ == self.stream()[self.current - 1],
    {
        &self.tokens[self.current - 1]
    }
}

} // verus!
