//! Expression trees, and the printer that writes them in prefix form.

use crate::lexer::{is_literal_text, option_view, Literal, LiteralView, Token, TokenView};
use crate::reporter::message_views;
use vstd::prelude::*;
use vstd::string::StringExecFns;

verus! {

#[derive(Debug)]
pub enum Expression {
    Binary(Box<Expression>, Token, Box<Expression>),
    Grouping(Box<Expression>),
    Literal(Option<Literal>),
    Unary(Token, Box<Expression>),
}

/// An expression as contracts see it.
pub enum ExpressionView {
    Binary(Box<ExpressionView>, TokenView, Box<ExpressionView>),
    Grouping(Box<ExpressionView>),
    Literal(Option<LiteralView>),
    Unary(TokenView, Box<ExpressionView>),
}

/// The view of an expression: the same tree over the views of its tokens and values.
pub open spec fn expression_view(expr: Expression) -> ExpressionView
    decreases expr,
{
    match expr {
        Expression::Binary(left, operator, right) => ExpressionView::Binary(
            Box::new(expression_view(*left)),
            operator@,
            Box::new(expression_view(*right)),
        ),
        Expression::Grouping(inner) => ExpressionView::Grouping(Box::new(expression_view(*inner))),
        Expression::Literal(literal) => ExpressionView::Literal(option_view(literal)),
        Expression::Unary(operator, inner) => ExpressionView::Unary(
            operator@,
            Box::new(expression_view(*inner)),
        ),
    }
}

impl View for Expression {
    type V = ExpressionView;

    open spec fn view(&self) -> ExpressionView {
        expression_view(*self)
    }
}

/// The views of a run of expressions, in order.
pub open spec fn expression_views(exprs: Seq<&Expression>) -> Seq<ExpressionView> {
    exprs.map_values(|e: &Expression| e@)
}

/// Each part with a space before it, one after the other.
pub open spec fn spaced(parts: Seq<Seq<char>>) -> Seq<char>
    decreases parts.len(),
{
    if parts.len() == 0 {
        Seq::empty()
    } else {
        spaced(parts.drop_last()) + " "@ + parts.last()
    }
}

/// `(name part part ...)`.
pub open spec fn parenthesized(name: Seq<char>, parts: Seq<Seq<char>>) -> Seq<char> {
    "("@ + name + spaced(parts) + ")"@
}

/// `(name a)`.
pub open spec fn around_one(name: Seq<char>, a: Seq<char>) -> Seq<char> {
    parenthesized(name, seq![a])
}

/// `(name a b)`.
pub open spec fn around_two(name: Seq<char>, a: Seq<char>, b: Seq<char>) -> Seq<char> {
    parenthesized(name, seq![a, b])
}

/// The value that a literal expression prints: its own, or nil where it has none.
pub open spec fn printed_literal(literal: Option<LiteralView>) -> LiteralView {
    match literal {
        Some(value) => value,
        None => LiteralView::Null,
    }
}

/// What `text` must be to be the printed form of `expr`, where `number`
/// prints numbers: a literal as its value prints, a grouping as
/// `(group inner)`, a unary expression as `(op operand)` and a binary one as
/// `(op left right)`, with the operator's lexeme for `op`.
pub open spec fn is_printed<R: Fn(u64) -> String>(
    number: R,
    expr: ExpressionView,
    text: Seq<char>,
) -> bool
    decreases expr,
{
    match expr {
        ExpressionView::Literal(literal) => is_literal_text(number, printed_literal(literal), text),
        ExpressionView::Grouping(_) => exists|a: Seq<char>|
            is_printed(number, *expr->Grouping_0, a) && text == #[trigger] around_one("group"@, a),
        ExpressionView::Unary(_, _) => exists|a: Seq<char>|
            is_printed(number, *expr->Unary_1, a) && text == #[trigger] around_one(
                expr->Unary_0.lexeme,
                a,
            ),
        ExpressionView::Binary(_, _, _) => exists|a: Seq<char>, b: Seq<char>|
            is_printed(number, *expr->Binary_0, a) && is_printed(number, *expr->Binary_2, b) && text
                == #[trigger] around_two(expr->Binary_1.lexeme, a, b),
    }
}

/// Whether `parts` are printed forms of `exprs`, one for one and in order.
pub open spec fn are_printed<R: Fn(u64) -> String>(
    number: R,
    exprs: Seq<ExpressionView>,
    parts: Seq<Seq<char>>,
) -> bool {
    &&& parts.len() == exprs.len()
    &&& forall|i: int| 0 <= i < exprs.len() ==> is_printed(number, #[trigger] exprs[i], parts[i])
}

/// What `text` must be to be `(name e e ...)` for the expressions `exprs`.
pub open spec fn is_parenthesized<R: Fn(u64) -> String>(
    number: R,
    name: Seq<char>,
    exprs: Seq<ExpressionView>,
    text: Seq<char>,
) -> bool {
    exists|parts: Seq<Seq<char>>| #[trigger]
        are_printed(number, exprs, parts) && text == parenthesized(name, parts)
}

pub struct AstPrinter {}

impl AstPrinter {
    pub fn new() -> Self {
        Self {  }
    }

    /// `(name part part ...)` for parts that are printed already.
    fn wrap(name: &str, parts: &Vec<String>) -> (text: String)
        ensures
            text@ == parenthesized(name@, message_views(parts@)),
    {
        let mut s = String::from_str("(");
        s.append(name);
        let ghost views = message_views(parts@);
        let mut i: usize = 0;
        while i < parts.len()
            invariant
                0 <= i <= parts.len(),
                views == message_views(parts@),
                s@ == "("@ + name@ + spaced(views.take(i as int)),
            decreases parts.len() - i,
        {
            s.append(" ");
            s.append(parts[i].as_str());
            proof {
                let grown = views.take(i + 1);
                assert(grown.drop_last() =~= views.take(i as int));
                assert(grown.last() == parts@[i as int]@);
                assert(s@ =~= "("@ + name@ + spaced(grown));
            }
            i += 1;
        }
        assert(views.take(i as int) =~= views);
        s.append(")");
        s
    }

    /// `(name e e ...)`, each expression printed in turn.
    pub fn parenthesize<R: Fn(u64) -> String>(
        &self,
        name: &str,
        exprs: Vec<&Expression>,
        number: &R,
    ) -> (text: String)
        requires
            forall|bits: u64| call_requires(number, (bits,)),
        ensures
            is_parenthesized(*number, name@, expression_views(exprs@), text@),
    {
        let mut parts: Vec<String> = Vec::new();
        let mut i: usize = 0;
        while i < exprs.len()
            invariant
                forall|bits: u64| call_requires(number, (bits,)),
                0 <= i <= exprs.len(),
                parts@.len() == i,
                forall|j: int|
                    0 <= j < i ==> is_printed(
                        *number,
                        #[trigger] expression_views(exprs@)[j],
                        parts@[j]@,
                    ),
            decreases exprs.len() - i,
        {
            let part = self.print(exprs[i], number);
            parts.push(part);
            i += 1;
        }
        let text = Self::wrap(name, &parts);
        assert(are_printed(*number, expression_views(exprs@), message_views(parts@)));
        text
    }

    /// The expression in prefix form, fully parenthesized.
    pub fn print<R: Fn(u64) -> String>(&self, expr: &Expression, number: &R) -> (text: String)
        requires
            forall|bits: u64| call_requires(number, (bits,)),
        ensures
            is_printed(*number, expr@, text@),
        decreases expr,
    {
        match expr {
            Expression::Binary(left, operator, right) => {
                let a = self.print(left, number);
                let b = self.print(right, number);
                let mut parts: Vec<String> = Vec::new();
                parts.push(a);
                parts.push(b);
                let text = Self::wrap(operator.lexeme.as_str(), &parts);
                proof {
                    assert(message_views(parts@) =~= seq![parts@[0]@, parts@[1]@]);
                    assert(is_printed(*number, *expr@->Binary_0, parts@[0]@));
                    assert(is_printed(*number, *expr@->Binary_2, parts@[1]@));
                    assert(text@ == around_two(expr@->Binary_1.lexeme, parts@[0]@, parts@[1]@));
                }
                text
            },
            Expression::Grouping(inner) => {
                let a = self.print(inner, number);
                let mut parts: Vec<String> = Vec::new();
                parts.push(a);
                let text = Self::wrap("group", &parts);
                proof {
                    assert(message_views(parts@) =~= seq![parts@[0]@]);
                    assert(is_printed(*number, *expr@->Grouping_0, parts@[0]@));
                    assert(text@ == around_one("group"@, parts@[0]@));
                }
                text
            },
            Expression::Literal(literal) => {
                match literal {
                    Some(value) => value.render(number),
                    None => Literal::Null.render(number),
                }
            },
            Expression::Unary(operator, inner) => {
                let a = self.print(inner, number);
                let mut parts: Vec<String> = Vec::new();
                parts.push(a);
                let text = Self::wrap(operator.lexeme.as_str(), &parts);
                proof {
                    assert(message_views(parts@) =~= seq![parts@[0]@]);
                    assert(is_printed(*number, *expr@->Unary_1, parts@[0]@));
                    assert(text@ == around_one(expr@->Unary_0.lexeme, parts@[0]@));
                }
                text
            },
        }
    }
}

} // verus!
