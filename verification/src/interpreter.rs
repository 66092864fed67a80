//! The evaluator: an expression tree in, a value or nothing out.
//!
//! What evaluation yields is fixed by [`is_evaluation`]. It leaves one thing
//! open: the result of `+`, `-`, `*` and `/` on two numbers, which the
//! caller's `arith` function computes.

use crate::ast::{Expression, ExpressionView};
use crate::lexer::{
    is_literal_text, literal_eq, option_view, Literal, LiteralView, Token, TokenType,
};
use crate::number::{
    less, less_equal, negate, negated, number_le, number_lt, Arithmetic,
};
use vstd::prelude::*;
use vstd::string::StringExecFns;

verus! {

/// An operator that was applied to operands it is not defined for.
#[derive(Debug)]
pub struct TypeMismatch {
    pub operator: TokenType,
    pub left: Literal,
    pub right: Literal,
}

/// A type mismatch as contracts see it.
pub struct TypeMismatchView {
    pub operator: TokenType,
    pub left: LiteralView,
    pub right: LiteralView,
}

impl View for TypeMismatch {
    type V = TypeMismatchView;

    open spec fn view(&self) -> TypeMismatchView {
        TypeMismatchView { operator: self.operator, left: self.left@, right: self.right@ }
    }
}

/// What one evaluation yields: a value or none, and the type mismatch that
/// it ran into, if it ran into one.
pub struct Outcome {
    pub value: Option<LiteralView>,
    pub mismatch: Option<TypeMismatchView>,
}

/// The outcome that is the value `value`.
pub open spec fn ok(value: LiteralView) -> Outcome {
    Outcome { value: Some(value), mismatch: None }
}

/// The height of an expression: 0 for a literal.
pub open spec fn height(expr: ExpressionView) -> nat
    decreases expr,
{
    match expr {
        ExpressionView::Literal(_) => 0,
        ExpressionView::Grouping(inner) => 1 + height(*inner),
        ExpressionView::Unary(_, inner) => 1 + height(*inner),
        ExpressionView::Binary(left, _, right) => 1 + if height(*left) >= height(*right) {
            height(*left)
        } else {
            height(*right)
        },
    }
}

/// Whether both values are numbers.
pub open spec fn both_numbers(left: LiteralView, right: LiteralView) -> bool {
    left is Number && right is Number
}

/// Whether both values are text.
pub open spec fn both_strings(left: LiteralView, right: LiteralView) -> bool {
    left is String && right is String
}

/// Whether a binary operator is defined for two operands: `+` for two
/// numbers or two strings, `-`, `/`, `*` and the four order comparisons for
/// two numbers, `==` and `!=` for any two values. Nothing else is an operator.
pub open spec fn compatible(operator: TokenType, left: LiteralView, right: LiteralView) -> bool {
    match operator {
        TokenType::Plus => both_numbers(left, right) || both_strings(left, right),
        TokenType::Minus | TokenType::Slash | TokenType::Star => both_numbers(left, right),
        TokenType::Greater | TokenType::GreaterEqual | TokenType::Less | TokenType::LessEqual =>
            both_numbers(left, right),
        TokenType::BangEqual | TokenType::EqualEqual => true,
        _ => false,
    }
}

/// The operation that the caller computes for an operator, if it is one of
/// the four that round.
pub open spec fn arithmetic(operator: TokenType) -> Option<Arithmetic> {
    match operator {
        TokenType::Plus => Some(Arithmetic::Add),
        TokenType::Minus => Some(Arithmetic::Subtract),
        TokenType::Star => Some(Arithmetic::Multiply),
        TokenType::Slash => Some(Arithmetic::Divide),
        _ => None,
    }
}

/// What a unary operator makes of a value: `-` negates a number, `!`
/// inverts a boolean, and nothing else gives a value.
pub open spec fn unary_value(operator: TokenType, value: LiteralView) -> Option<LiteralView> {
    match (operator, value) {
        (TokenType::Minus, LiteralView::Number(bits)) => Some(LiteralView::Number(negated(bits))),
        (TokenType::Bang, LiteralView::Boolean(b)) => Some(LiteralView::Boolean(!b)),
        _ => None,
    }
}

/// What a binary operator makes of two operands it is defined for, where no
/// rounding is involved: text joined, numbers compared, values tested for
/// equality.
pub open spec fn exact_value(operator: TokenType, left: LiteralView, right: LiteralView) -> Option<
    LiteralView,
> {
    match (operator, left, right) {
        (TokenType::Plus, LiteralView::String(x), LiteralView::String(y)) => Some(
            LiteralView::String(x + y),
        ),
        (TokenType::Greater, LiteralView::Number(x), LiteralView::Number(y)) => Some(
            LiteralView::Boolean(number_lt(y, x)),
        ),
        (TokenType::GreaterEqual, LiteralView::Number(x), LiteralView::Number(y)) => Some(
            LiteralView::Boolean(number_le(y, x)),
        ),
        (TokenType::Less, LiteralView::Number(x), LiteralView::Number(y)) => Some(
            LiteralView::Boolean(number_lt(x, y)),
        ),
        (TokenType::LessEqual, LiteralView::Number(x), LiteralView::Number(y)) => Some(
            LiteralView::Boolean(number_le(x, y)),
        ),
        (TokenType::BangEqual, _, _) => Some(LiteralView::Boolean(!literal_eq(left, right))),
        (TokenType::EqualEqual, _, _) => Some(LiteralView::Boolean(literal_eq(left, right))),
        _ => None,
    }
}

/// Whether `bits` is what `arith` returned for `operation` on `x` and `y`.
pub open spec fn is_computed<A: Fn(Arithmetic, u64, u64) -> u64>(
    arith: A,
    operation: Arithmetic,
    x: u64,
    y: u64,
    bits: u64,
) -> bool {
    call_ensures(arith, (operation, x, y), bits)
}

/// What `out` must be to be the outcome of a binary operator on two values.
/// On operands that the operator is not defined for it is no value and the
/// mismatch. On two numbers under `+`, `-`, `*` or `/` it is the number that
/// `arith` returned. In every other case it is the value of [`exact_value`].
pub open spec fn is_binary_outcome<A: Fn(Arithmetic, u64, u64) -> u64>(
    arith: A,
    operator: TokenType,
    left: LiteralView,
    right: LiteralView,
    out: Outcome,
) -> bool {
    if !compatible(operator, left, right) {
        out == (Outcome {
            value: None,
            mismatch: Some(TypeMismatchView { operator, left, right }),
        })
    } else if both_numbers(left, right) && arithmetic(operator) is Some {
        &&& out.mismatch is None
        &&& out.value matches Some(LiteralView::Number(bits))
        &&& is_computed(arith, arithmetic(operator)->0, left->Number_0, right->Number_0, bits)
    } else {
        out == (Outcome { value: exact_value(operator, left, right), mismatch: None })
    }
}

/// What `out` must be to be the outcome of a unary expression whose
/// operand evaluates to `inner`: `inner` itself where that is no value, else
/// what the operator makes of the value.
pub open spec fn is_unary_outcome(operator: TokenType, inner: Outcome, out: Outcome) -> bool {
    match inner.value {
        None => out == inner,
        Some(value) => out == (Outcome { value: unary_value(operator, value), mismatch: None }),
    }
}

/// What `out` must be to be the outcome of evaluating `expr`, where `arith`
/// does the arithmetic.
///
/// A literal is its value, or no value where it carries none. A grouping is
/// what its inner expression is. A unary expression evaluates its operand; a
/// binary one its left operand and then its right. The first operand that
/// yields no value ends the evaluation with that outcome; otherwise the
/// operator is applied.
pub open spec fn is_evaluation<A: Fn(Arithmetic, u64, u64) -> u64>(
    arith: A,
    expr: ExpressionView,
    out: Outcome,
) -> bool
    decreases expr,
{
    match expr {
        ExpressionView::Literal(literal) => out == (Outcome { value: literal, mismatch: None }),
        ExpressionView::Grouping(_) => is_evaluation(arith, *expr->Grouping_0, out),
        ExpressionView::Unary(_, _) => exists|inner: Outcome|
            is_evaluation(arith, *expr->Unary_1, inner) && #[trigger] is_unary_outcome(
                expr->Unary_0.token_type,
                inner,
                out,
            ),
        ExpressionView::Binary(_, _, _) => {
            ||| out.value is None && is_evaluation(arith, *expr->Binary_0, out)
            ||| exists|left: LiteralView|
                {
                    &&& is_evaluation(arith, *expr->Binary_0, #[trigger] ok(left))
                    &&& out.value is None
                    &&& is_evaluation(arith, *expr->Binary_2, out)
                }
            ||| exists|left: LiteralView, right: LiteralView|
                {
                    &&& is_evaluation(arith, *expr->Binary_0, ok(left))
                    &&& is_evaluation(arith, *expr->Binary_2, ok(right))
                    &&& #[trigger] is_binary_outcome(
                        arith,
                        expr->Binary_1.token_type,
                        left,
                        right,
                        out,
                    )
                }
        },
    }
}

/// What `text` must be to show what an evaluation yielded: the printed
/// form of the value, or nothing where there is no value.
pub open spec fn is_shown<R: Fn(u64) -> String>(
    number: R,
    value: Option<LiteralView>,
    text: Seq<char>,
) -> bool {
    match value {
        Some(v) => is_literal_text(number, v, text),
        None => text == ""@,
    }
}

/// Whether `arith` returns the same bits for the same operation and operands.
pub open spec fn is_deterministic<A: Fn(Arithmetic, u64, u64) -> u64>(arith: A) -> bool {
    forall|operation: Arithmetic, x: u64, y: u64, a: u64, b: u64|
        #[trigger] call_ensures(arith, (operation, x, y), a) && #[trigger] call_ensures(
            arith,
            (operation, x, y),
            b,
        ) ==> a == b
}

/// An operator applied to operands that it is not defined for gives no
/// value, and the mismatch names the operator and both operands.
pub proof fn lemma_incompatible_operands<A: Fn(Arithmetic, u64, u64) -> u64>(
    arith: A,
    operator: TokenType,
    left: LiteralView,
    right: LiteralView,
    out: Outcome,
)
    requires
        is_binary_outcome(arith, operator, left, right, out),
        !compatible(operator, left, right),
    ensures
        out.value is None,
        out.mismatch == Some(TypeMismatchView { operator, left, right }),
{
}

/// An operator applied to operands that it is defined for gives a value and
/// no mismatch.
pub proof fn lemma_compatible_operands<A: Fn(Arithmetic, u64, u64) -> u64>(
    arith: A,
    operator: TokenType,
    left: LiteralView,
    right: LiteralView,
    out: Outcome,
)
    requires
        is_binary_outcome(arith, operator, left, right, out),
        compatible(operator, left, right),
    ensures
        out.value is Some,
        out.mismatch is None,
{
}

/// An evaluation that yields a value ran into no type mismatch.
pub proof fn lemma_value_without_mismatch<A: Fn(Arithmetic, u64, u64) -> u64>(
    arith: A,
    expr: ExpressionView,
    out: Outcome,
)
    requires
        is_evaluation(arith, expr, out),
        out.value is Some,
    ensures
        out.mismatch is None,
    decreases expr,
{
    match expr {
        ExpressionView::Literal(_) => {},
        ExpressionView::Grouping(inner) => {
            lemma_value_without_mismatch(arith, *inner, out);
        },
        ExpressionView::Unary(_, _) => {},
        ExpressionView::Binary(_, _, _) => {},
    }
}

/// The operands of a binary expression as one evaluation of it saw them:
/// the outcome of the left operand, and that of the right one where the
/// left one yielded a value.
proof fn lemma_operands<A: Fn(Arithmetic, u64, u64) -> u64>(
    arith: A,
    expr: ExpressionView,
    out: Outcome,
) -> (operands: (Outcome, Outcome))
    requires
        expr is Binary,
        is_evaluation(arith, expr, out),
    ensures
        is_evaluation(arith, *expr->Binary_0, operands.0),
        operands.0.value is None ==> out == operands.0,
        operands.0.value is Some ==> {
            &&& operands.0.mismatch is None
            &&& is_evaluation(arith, *expr->Binary_2, operands.1)
            &&& operands.1.value is None ==> out == operands.1
            &&& operands.1.value is Some ==> {
                &&& operands.1.mismatch is None
                &&& is_binary_outcome(
                    arith,
                    expr->Binary_1.token_type,
                    operands.0.value->0,
                    operands.1.value->0,
                    out,
                )
            }
        },
{
    if out.value is None && is_evaluation(arith, *expr->Binary_0, out) {
        (out, out)
    } else if exists|left: LiteralView|
        {
            &&& is_evaluation(arith, *expr->Binary_0, #[trigger] ok(left))
            &&& out.value is None
            &&& is_evaluation(arith, *expr->Binary_2, out)
        } {
        let left = choose|left: LiteralView|
            {
                &&& is_evaluation(arith, *expr->Binary_0, #[trigger] ok(left))
                &&& out.value is None
                &&& is_evaluation(arith, *expr->Binary_2, out)
            };
        (ok(left), out)
    } else {
        let (left, right) = choose|left: LiteralView, right: LiteralView|
            {
                &&& is_evaluation(arith, *expr->Binary_0, ok(left))
                &&& is_evaluation(arith, *expr->Binary_2, ok(right))
                &&& #[trigger] is_binary_outcome(
                    arith,
                    expr->Binary_1.token_type,
                    left,
                    right,
                    out,
                )
            };
        (ok(left), ok(right))
    }
}

/// The operand of a unary expression as one evaluation of it saw it.
proof fn lemma_operand<A: Fn(Arithmetic, u64, u64) -> u64>(
    arith: A,
    expr: ExpressionView,
    out: Outcome,
) -> (inner: Outcome)
    requires
        expr is Unary,
        is_evaluation(arith, expr, out),
    ensures
        is_evaluation(arith, *expr->Unary_1, inner),
        is_unary_outcome(expr->Unary_0.token_type, inner, out),
{
    choose|inner: Outcome|
        is_evaluation(arith, *expr->Unary_1, inner) && #[trigger] is_unary_outcome(
            expr->Unary_0.token_type,
            inner,
            out,
        )
}

/// Evaluating the same expression twice yields the same outcome, as long as
/// `arith` returns the same bits for the same operation and operands: two
/// outcomes that both are outcomes of one expression are equal, in the
/// value, bit for bit, and in the mismatch.
pub proof fn lemma_evaluation_is_deterministic<A: Fn(Arithmetic, u64, u64) -> u64>(
    arith: A,
    expr: ExpressionView,
    first: Outcome,
    second: Outcome,
)
    requires
        is_deterministic(arith),
        is_evaluation(arith, expr, first),
        is_evaluation(arith, expr, second),
    ensures
        first == second,
    decreases expr,
{
    match expr {
        ExpressionView::Literal(_) => {},
        ExpressionView::Grouping(inner) => {
            lemma_evaluation_is_deterministic(arith, *inner, first, second);
        },
        ExpressionView::Unary(_, operand) => {
            let a = lemma_operand(arith, expr, first);
            let b = lemma_operand(arith, expr, second);
            lemma_evaluation_is_deterministic(arith, *operand, a, b);
        },
        ExpressionView::Binary(left, _, right) => {
            let a = lemma_operands(arith, expr, first);
            let b = lemma_operands(arith, expr, second);
            lemma_evaluation_is_deterministic(arith, *left, a.0, b.0);
            if a.0.value is Some {
                lemma_evaluation_is_deterministic(arith, *right, a.1, b.1);
            }
        },
    }
}

/// The four types of values.
pub enum ValueType {
    String,
    Number,
    Null,
    Boolean,
}

/// The type of a value.
pub open spec fn type_of(value: LiteralView) -> ValueType {
    match value {
        LiteralView::String(_) => ValueType::String,
        LiteralView::Number(_) => ValueType::Number,
        LiteralView::Null => ValueType::Null,
        LiteralView::Boolean(_) => ValueType::Boolean,
    }
}

/// A type mismatch without the values: the operator and the types of its operands.
pub struct MismatchShape {
    pub operator: TokenType,
    pub left: ValueType,
    pub right: ValueType,
}

/// An outcome without the values: whether there is a value and of which
/// type, and whether there is a mismatch, of which operator on which types.
pub struct Shape {
    pub value: Option<ValueType>,
    pub mismatch: Option<MismatchShape>,
}

/// The shape of an outcome.
pub open spec fn shape(out: Outcome) -> Shape {
    Shape {
        value: match out.value {
            Some(value) => Some(type_of(value)),
            None => None,
        },
        mismatch: match out.mismatch {
            Some(m) => Some(
                MismatchShape {
                    operator: m.operator,
                    left: type_of(m.left),
                    right: type_of(m.right),
                },
            ),
            None => None,
        },
    }
}

/// Whether an evaluation yields a value, the type of that value, and the
/// operator and operand types of a mismatch do not depend on the
/// arithmetic: two evaluations of one expression have the same shape,
/// whatever did the arithmetic in each, and whatever it returned.
pub proof fn lemma_evaluation_has_one_shape<
    A: Fn(Arithmetic, u64, u64) -> u64,
    B: Fn(Arithmetic, u64, u64) -> u64,
>(one: A, other: B, expr: ExpressionView, first: Outcome, second: Outcome)
    requires
        is_evaluation(one, expr, first),
        is_evaluation(other, expr, second),
    ensures
        shape(first) == shape(second),
    decreases expr,
{
    match expr {
        ExpressionView::Literal(_) => {},
        ExpressionView::Grouping(inner) => {
            lemma_evaluation_has_one_shape(one, other, *inner, first, second);
        },
        ExpressionView::Unary(_, operand) => {
            let a = lemma_operand(one, expr, first);
            let b = lemma_operand(other, expr, second);
            lemma_evaluation_has_one_shape(one, other, *operand, a, b);
        },
        ExpressionView::Binary(left, _, right) => {
            let a = lemma_operands(one, expr, first);
            let b = lemma_operands(other, expr, second);
            lemma_evaluation_has_one_shape(one, other, *left, a.0, b.0);
            if a.0.value is Some {
                lemma_evaluation_has_one_shape(one, other, *right, a.1, b.1);
            }
        },
    }
}

/// A binary expression whose operands evaluate to values that its operator
/// is not defined for evaluates to no value and to a mismatch of that
/// operator on operands of those types, whatever the arithmetic returns;
/// the operands of the mismatch are the two values where `arith` returns
/// the same bits for the same operation and operands.
pub proof fn lemma_type_mismatch<A: Fn(Arithmetic, u64, u64) -> u64>(
    arith: A,
    expr: ExpressionView,
    left: LiteralView,
    right: LiteralView,
    out: Outcome,
)
    requires
        expr is Binary,
        is_evaluation(arith, *expr->Binary_0, ok(left)),
        is_evaluation(arith, *expr->Binary_2, ok(right)),
        !compatible(expr->Binary_1.token_type, left, right),
        is_evaluation(arith, expr, out),
    ensures
        out.value is None,
        shape(out).mismatch == Some(
            MismatchShape {
                operator: expr->Binary_1.token_type,
                left: type_of(left),
                right: type_of(right),
            },
        ),
        is_deterministic(arith) ==> out.mismatch == Some(
            TypeMismatchView { operator: expr->Binary_1.token_type, left, right },
        ),
{
    let found = lemma_operands(arith, expr, out);
    lemma_evaluation_has_one_shape(arith, arith, *expr->Binary_0, found.0, ok(left));
    lemma_evaluation_has_one_shape(arith, arith, *expr->Binary_2, found.1, ok(right));
    if is_deterministic(arith) {
        lemma_evaluation_is_deterministic(arith, *expr->Binary_0, found.0, ok(left));
        lemma_evaluation_is_deterministic(arith, *expr->Binary_2, found.1, ok(right));
    }
}

/// The mismatches in `after` that are not in `before`, if `after` is
/// `before` with at most one more.
pub open spec fn recorded(before: Seq<TypeMismatchView>, after: Seq<TypeMismatchView>) -> Option<
    TypeMismatchView,
> {
    if after.len() == before.len() + 1 {
        Some(after.last())
    } else {
        None
    }
}

/// `before`, and `mismatch` after it if there is one.
pub open spec fn with_mismatch(
    before: Seq<TypeMismatchView>,
    mismatch: Option<TypeMismatchView>,
) -> Seq<TypeMismatchView> {
    match mismatch {
        Some(m) => before.push(m),
        None => before,
    }
}

pub struct Interpreter {
    /// The type mismatches that evaluations ran into, oldest first.
    pub diagnostics: Vec<TypeMismatch>,
}

impl View for Interpreter {
    type V = Seq<TypeMismatchView>;

    open spec fn view(&self) -> Seq<TypeMismatchView> {
        self.diagnostics@.map_values(|m: TypeMismatch| m@)
    }
}

impl Interpreter {
    pub fn new() -> (interpreter: Self)
        ensures
            interpreter@ == Seq::<TypeMismatchView>::empty(),
    {
        let interpreter = Self { diagnostics: Vec::new() };
        assert(interpreter@ =~= Seq::<TypeMismatchView>::empty());
        interpreter
    }

    /// What the evaluation that took the interpreter from `before` to `self`
    /// and returned `value` yielded.
    pub open spec fn outcome(
        &self,
        before: Seq<TypeMismatchView>,
        value: Option<Literal>,
    ) -> Outcome {
        Outcome { value: option_view(value), mismatch: recorded(before, self@) }
    }

    /// Evaluates `expr` and hands back the line that shows the value; the
    /// line is empty where there is no value. Numbers are printed by `number`.
    pub fn interpret<A: Fn(Arithmetic, u64, u64) -> u64, R: Fn(u64) -> String>(
        &mut self,
        expr: &Expression,
        arith: &A,
        number: &R,
    ) -> (text: String)
        requires
            forall|operation: Arithmetic, x: u64, y: u64| call_requires(arith, (operation, x, y)),
            forall|bits: u64| call_requires(number, (bits,)),
        ensures
            exists|value: Option<LiteralView>|
                {
                    &&& #[trigger] is_shown(*number, value, text@)
                    &&& is_evaluation(
                        *arith,
                        expr@,
                        Outcome { value, mismatch: recorded(old(self)@, final(self)@) },
                    )
                },
            final(self)@ == with_mismatch(old(self)@, recorded(old(self)@, final(self)@)),
    {
        let value = self.evaluate(expr, arith);
        let text = match &value {
            Some(v) => v.render(number),
            None => String::from_str(""),
        };
        assert(is_shown(*number, option_view(value), text@));
        text
    }

    /// Evaluates `expr`. A type mismatch is recorded and gives no value.
    pub fn evaluate<A: Fn(Arithmetic, u64, u64) -> u64>(
        &mut self,
        expr: &Expression,
        arith: &A,
    ) -> (value: Option<Literal>)
        requires
            forall|operation: Arithmetic, x: u64, y: u64| call_requires(arith, (operation, x, y)),
        ensures
            is_evaluation(*arith, expr@, final(self).outcome(old(self)@, value)),
            final(self)@ == with_mismatch(old(self)@, recorded(old(self)@, final(self)@)),
            value is Some ==> final(self)@ == old(self)@,
        decreases height(expr@), 0nat,
    {
        match expr {
            Expression::Literal(l) => {
                match l {
                    Some(v) => Some(v.clone()),
                    None => None,
                }
            },
            Expression::Grouping(inner) => self.evaluate(inner, arith),
            Expression::Unary(operator, inner) => self.evaluate_unary(operator, inner, arith),
            Expression::Binary(left, operator, right) => self.evaluate_binary(
                left,
                operator,
                right,
                arith,
            ),
        }
    }

    fn evaluate_unary<A: Fn(Arithmetic, u64, u64) -> u64>(
        &mut self,
        operator: &Token,
        expr: &Expression,
        arith: &A,
    ) -> (value: Option<Literal>)
        requires
            forall|operation: Arithmetic, x: u64, y: u64| call_requires(arith, (operation, x, y)),
        ensures
            exists|inner: Outcome|
                is_evaluation(*arith, expr@, inner) && #[trigger] is_unary_outcome(
                    operator.token_type,
                    inner,
                    final(self).outcome(old(self)@, value),
                ),
            final(self)@ == with_mismatch(old(self)@, recorded(old(self)@, final(self)@)),
            value is Some ==> final(self)@ == old(self)@,
        decreases height(expr@), 1nat,
    {
        let evaluated = self.evaluate(expr, arith);
        let ghost inner = self.outcome(old(self)@, evaluated);
        let right = match evaluated {
            Some(v) => v,
            None => {
                assert(is_unary_outcome(operator.token_type, inner, inner));
                return None;
            },
        };
        let value = match right {
            Literal::Number(v) => match operator.token_type {
                TokenType::Minus => Some(Literal::Number(negate(v))),
                _ => None,
            },
            Literal::Boolean(v) => match operator.token_type {
                TokenType::Bang => Some(Literal::Boolean(!v)),
                _ => None,
            },
            _ => None,
        };
        assert(is_unary_outcome(operator.token_type, inner, self.outcome(old(self)@, value)));
        value
    }

    /// Evaluates `left`, then `right`, and applies `operator` to the two values.
    pub fn evaluate_binary<A: Fn(Arithmetic, u64, u64) -> u64>(
        &mut self,
        left: &Expression,
        operator: &Token,
        right: &Expression,
        arith: &A,
    ) -> (value: Option<Literal>)
        requires
            forall|operation: Arithmetic, x: u64, y: u64| call_requires(arith, (operation, x, y)),
        ensures
            is_evaluation(
                *arith,
                ExpressionView::Binary(Box::new(left@), operator@, Box::new(right@)),
                final(self).outcome(old(self)@, value),
            ),
            final(self)@ == with_mismatch(old(self)@, recorded(old(self)@, final(self)@)),
            value is Some ==> final(self)@ == old(self)@,
        decreases
                if height(left@) >= height(right@) {
                    height(left@)
                } else {
                    height(right@)
                },
                1nat,
    {
        let left_value = self.evaluate(left, arith)?;
        assert(is_evaluation(*arith, left@, ok(left_value@)));
        let right_value = self.evaluate(right, arith)?;
        assert(is_evaluation(*arith, right@, ok(right_value@)));
        let value = self.apply_binary(operator, left_value, right_value, arith);
        assert(is_binary_outcome(
            *arith,
            operator.token_type,
            left_value@,
            right_value@,
            self.outcome(old(self)@, value),
        ));
        value
    }

    /// Applies a binary operator to two values: a mismatch is recorded and
    /// gives no value, arithmetic on two numbers is left to `arith`, and
    /// everything else is decided here.
    pub fn apply_binary<A: Fn(Arithmetic, u64, u64) -> u64>(
        &mut self,
        operator: &Token,
        left_value: Literal,
        right_value: Literal,
        arith: &A,
    ) -> (value: Option<Literal>)
        requires
            forall|operation: Arithmetic, x: u64, y: u64| call_requires(arith, (operation, x, y)),
        ensures
            is_binary_outcome(
                *arith,
                operator.token_type,
                left_value@,
                right_value@,
                final(self).outcome(old(self)@, value),
            ),
            final(self)@ == with_mismatch(old(self)@, recorded(old(self)@, final(self)@)),
            value is Some ==> final(self)@ == old(self)@,
    {
        if !Interpreter::are_compatible(operator, &left_value, &right_value) {
            self.diagnostics.push(
                TypeMismatch {
                    operator: operator.token_type,
                    left: left_value,
                    right: right_value,
                },
            );
            assert(self@ =~= old(self)@.push(
                TypeMismatchView {
                    operator: operator.token_type,
                    left: left_value@,
                    right: right_value@,
                },
            ));
            return None;
        }
        match (operator.token_type, left_value, right_value) {
            (TokenType::Minus, Literal::Number(left), Literal::Number(right)) => Some(
                Literal::Number(arith(Arithmetic::Subtract, left, right)),
            ),
            (TokenType::Slash, Literal::Number(left), Literal::Number(right)) => Some(
                Literal::Number(arith(Arithmetic::Divide, left, right)),
            ),
            (TokenType::Star, Literal::Number(left), Literal::Number(right)) => Some(
                Literal::Number(arith(Arithmetic::Multiply, left, right)),
            ),
            (TokenType::Plus, Literal::Number(left), Literal::Number(right)) => Some(
                Literal::Number(arith(Arithmetic::Add, left, right)),
            ),
            (TokenType::Plus, Literal::String(left), Literal::String(right)) => Some(
                Literal::String(left.concat(right.as_str())),
            ),
            (TokenType::Greater, Literal::Number(left), Literal::Number(right)) => Some(
                Literal::Boolean(less(right, left)),
            ),
            (TokenType::GreaterEqual, Literal::Number(left), Literal::Number(right)) => Some(
                Literal::Boolean(less_equal(right, left)),
            ),
            (TokenType::Less, Literal::Number(left), Literal::Number(right)) => Some(
                Literal::Boolean(less(left, right)),
            ),
            (TokenType::LessEqual, Literal::Number(left), Literal::Number(right)) => Some(
                Literal::Boolean(less_equal(left, right)),
            ),
            (TokenType::BangEqual, left, right) => Some(Literal::Boolean(left != right)),
            (TokenType::EqualEqual, left, right) => Some(Literal::Boolean(left == right)),
            _ => None,
        }
    }

    /// Whether `operator` is defined for the two operands.
    pub fn are_compatible(operator: &Token, left: &Literal, right: &Literal) -> (r: bool)
        ensures
            r == compatible(operator.token_type, left@, right@),
    {
        match operator.token_type {
            TokenType::Plus => matches!(
                (left, right),
                (Literal::Number(_), Literal::Number(_)) | (Literal::String(_), Literal::String(_))
            ),
            TokenType::Minus | TokenType::Slash | TokenType::Star => {
                matches!((left, right), (Literal::Number(_), Literal::Number(_)))
            },
            TokenType::Greater
            | TokenType::GreaterEqual
            | TokenType::Less
            | TokenType::LessEqual => {
                matches!((left, right), (Literal::Number(_), Literal::Number(_)))
            },
            TokenType::BangEqual | TokenType::EqualEqual => true,
            _ => false,
        }
    }
}

} // verus!
