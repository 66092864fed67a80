//! Tokens, and the values that literals and expressions carry.

use crate::number::{equal, number_eq};
use vstd::prelude::*;
use vstd::std_specs::cmp::PartialEqSpecImpl;
use vstd::string::StringExecFns;

verus! {

#[derive(Copy, Clone, Debug, PartialEq, Eq, Structural)]
pub enum TokenType {
    // Single-character tokens.
    LeftParen,
    RightParen,
    LeftBrace,
    RightBrace,
    Comma,
    Dot,
    Minus,
    Plus,
    Semicolon,
    Slash,
    Star,
    // One or two character tokens.
    Bang,
    BangEqual,
    Equal,
    EqualEqual,
    Greater,
    GreaterEqual,
    Less,
    LessEqual,
    // Literals.
    Identifier,
    String,
    Number,
    // Keywords.
    And,
    Class,
    Else,
    False,
    Fun,
    For,
    If,
    Nil,
    Or,
    Print,
    Return,
    Super,
    This,
    True,
    Var,
    While,
    Eof,
}

impl TokenType {
    /// The kind's name in upper snake case, as token listings show it.
    pub open spec fn spec_name(self) -> Seq<char> {
        match self {
            TokenType::LeftParen => "LEFT_PAREN"@,
            TokenType::RightParen => "RIGHT_PAREN"@,
            TokenType::LeftBrace => "LEFT_BRACE"@,
            TokenType::RightBrace => "RIGHT_BRACE"@,
            TokenType::Comma => "COMMA"@,
            TokenType::Dot => "DOT"@,
            TokenType::Minus => "MINUS"@,
            TokenType::Plus => "PLUS"@,
            TokenType::Semicolon => "SEMICOLON"@,
            TokenType::Slash => "SLASH"@,
            TokenType::Star => "STAR"@,
            TokenType::Bang => "BANG"@,
            TokenType::BangEqual => "BANG_EQUAL"@,
            TokenType::Equal => "EQUAL"@,
            TokenType::EqualEqual => "EQUAL_EQUAL"@,
            TokenType::Greater => "GREATER"@,
            TokenType::GreaterEqual => "GREATER_EQUAL"@,
            TokenType::Less => "LESS"@,
            TokenType::LessEqual => "LESS_EQUAL"@,
            TokenType::Identifier => "IDENTIFIER"@,
            TokenType::String => "STRING"@,
            TokenType::Number => "NUMBER"@,
            TokenType::And => "AND"@,
            TokenType::Class => "CLASS"@,
            TokenType::Else => "ELSE"@,
            TokenType::False => "FALSE"@,
            TokenType::Fun => "FUN"@,
            TokenType::For => "FOR"@,
            TokenType::If => "IF"@,
            TokenType::Nil => "NIL"@,
            TokenType::Or => "OR"@,
            TokenType::Print => "PRINT"@,
            TokenType::Return => "RETURN"@,
            TokenType::Super => "SUPER"@,
            TokenType::This => "THIS"@,
            TokenType::True => "TRUE"@,
            TokenType::Var => "VAR"@,
            TokenType::While => "WHILE"@,
            TokenType::Eof => "EOF"@,
        }
    }

    /// The kind's name in upper snake case.
    pub fn name(&self) -> (text: &'static str)
        ensures
            text@ == self.spec_name(),
    {
        match self {
            TokenType::LeftParen => "LEFT_PAREN",
            TokenType::RightParen => "RIGHT_PAREN",
            TokenType::LeftBrace => "LEFT_BRACE",
            TokenType::RightBrace => "RIGHT_BRACE",
            TokenType::Comma => "COMMA",
            TokenType::Dot => "DOT",
            TokenType::Minus => "MINUS",
            TokenType::Plus => "PLUS",
            TokenType::Semicolon => "SEMICOLON",
            TokenType::Slash => "SLASH",
            TokenType::Star => "STAR",
            TokenType::Bang => "BANG",
            TokenType::BangEqual => "BANG_EQUAL",
            TokenType::Equal => "EQUAL",
            TokenType::EqualEqual => "EQUAL_EQUAL",
            TokenType::Greater => "GREATER",
            TokenType::GreaterEqual => "GREATER_EQUAL",
            TokenType::Less => "LESS",
            TokenType::LessEqual => "LESS_EQUAL",
            TokenType::Identifier => "IDENTIFIER",
            TokenType::String => "STRING",
            TokenType::Number => "NUMBER",
            TokenType::And => "AND",
            TokenType::Class => "CLASS",
            TokenType::Else => "ELSE",
            TokenType::False => "FALSE",
            TokenType::Fun => "FUN",
            TokenType::For => "FOR",
            TokenType::If => "IF",
            TokenType::Nil => "NIL",
            TokenType::Or => "OR",
            TokenType::Print => "PRINT",
            TokenType::Return => "RETURN",
            TokenType::Super => "SUPER",
            TokenType::This => "THIS",
            TokenType::True => "TRUE",
            TokenType::Var => "VAR",
            TokenType::While => "WHILE",
            TokenType::Eof => "EOF",
        }
    }

    /// The kind's name as an owned string.
    pub fn to_string(&self) -> (text: String)
        ensures
            text@ == self.spec_name(),
    {
        String::from_str(self.name())
    }
}

/// A value: what a literal token carries and what an expression evaluates to.
#[derive(Debug)]
pub enum Literal {
    String(String),
    /// The bits of a double; see [`crate::number`].
    Number(u64),
    Null,
    Boolean(bool),
}

/// A value as contracts see it: text as a sequence of characters.
pub enum LiteralView {
    String(Seq<char>),
    Number(u64),
    Null,
    Boolean(bool),
}

impl View for Literal {
    type V = LiteralView;

    open spec fn view(&self) -> LiteralView {
        match self {
            Literal::String(s) => LiteralView::String(s@),
            Literal::Number(bits) => LiteralView::Number(*bits),
            Literal::Null => LiteralView::Null,
            Literal::Boolean(b) => LiteralView::Boolean(*b),
        }
    }
}

/// The view of an optional value.
pub open spec fn option_view(literal: Option<Literal>) -> Option<LiteralView> {
    match literal {
        Some(l) => Some(l@),
        None => None,
    }
}

/// Equality of values: two values of different types are never equal (and
/// comparing them is no error), text is equal character by character, numbers
/// are equal as numbers.
pub open spec fn literal_eq(a: LiteralView, b: LiteralView) -> bool {
    match (a, b) {
        (LiteralView::String(x), LiteralView::String(y)) => x == y,
        (LiteralView::Number(x), LiteralView::Number(y)) => number_eq(x, y),
        (LiteralView::Null, LiteralView::Null) => true,
        (LiteralView::Boolean(x), LiteralView::Boolean(y)) => x == y,
        _ => false,
    }
}

impl PartialEq for Literal {
    fn eq(&self, other: &Self) -> (r: bool) {
        match (self, other) {
            (Literal::String(x), Literal::String(y)) => *x == *y,
            (Literal::Number(x), Literal::Number(y)) => equal(*x, *y),
            (Literal::Null, Literal::Null) => true,
            (Literal::Boolean(x), Literal::Boolean(y)) => *x == *y,
            _ => false,
        }
    }
}

impl PartialEqSpecImpl for Literal {
    open spec fn obeys_eq_spec() -> bool {
        true
    }

    open spec fn eq_spec(&self, other: &Self) -> bool {
        literal_eq(self@, other@)
    }
}

impl Clone for Literal {
    fn clone(&self) -> (copy: Self)
        ensures
            copy@ == self@,
    {
        match self {
            Literal::String(s) => Literal::String(s.clone()),
            Literal::Number(bits) => Literal::Number(*bits),
            Literal::Null => Literal::Null,
            Literal::Boolean(b) => Literal::Boolean(*b),
        }
    }
}

/// What `text` must be to be the printed form of a number: what `number`
/// returned for its bits.
pub open spec fn is_number_text<R: Fn(u64) -> String>(
    number: R,
    bits: u64,
    text: Seq<char>,
) -> bool {
    exists|s: String| #[trigger] call_ensures(number, (bits,), s) && s@ == text
}

/// What `text` must be to be the printed form of `literal`, where `number`
/// prints numbers: text verbatim, a number as `number` returned it, `nil`,
/// `true` or `false`.
pub open spec fn is_literal_text<R: Fn(u64) -> String>(
    number: R,
    literal: LiteralView,
    text: Seq<char>,
) -> bool {
    match literal {
        LiteralView::String(s) => text == s,
        LiteralView::Number(bits) => is_number_text(number, bits, text),
        LiteralView::Null => text == "nil"@,
        LiteralView::Boolean(b) => text == if b {
            "true"@
        } else {
            "false"@
        },
    }
}

impl Literal {
    /// The printed form of the value. Numbers are printed by `number`.
    pub fn render<R: Fn(u64) -> String>(&self, number: &R) -> (text: String)
        requires
            forall|bits: u64| call_requires(number, (bits,)),
        ensures
            is_literal_text(*number, self@, text@),
    {
        match self {
            Literal::String(s) => s.clone(),
            Literal::Number(bits) => number(*bits),
            Literal::Null => String::from_str("nil"),
            Literal::Boolean(b) => if *b {
                String::from_str("true")
            } else {
                String::from_str("false")
            },
        }
    }
}

#[derive(Debug, PartialEq)]
pub struct Token {
    pub token_type: TokenType,
    pub lexeme: String,
    pub literal: Option<Literal>,
    pub line: usize,
}

/// A token as contracts see it.
pub struct TokenView {
    pub token_type: TokenType,
    pub lexeme: Seq<char>,
    pub literal: Option<LiteralView>,
    pub line: usize,
}

impl View for Token {
    type V = TokenView;

    open spec fn view(&self) -> TokenView {
        TokenView {
            token_type: self.token_type,
            lexeme: self.lexeme@,
            literal: option_view(self.literal),
            line: self.line,
        }
    }
}

/// The views of a run of tokens, in order.
pub open spec fn token_views(tokens: Seq<Token>) -> Seq<TokenView> {
    tokens.map_values(|t: Token| t@)
}

impl Clone for Token {
    fn clone(&self) -> (copy: Self)
        ensures
            copy@ == self@,
    {
        let literal = match &self.literal {
            Some(l) => Some(l.clone()),
            None => None,
        };
        Token { token_type: self.token_type, lexeme: self.lexeme.clone(), literal, line: self.line }
    }
}

/// What `text` must be to stand for an optional value in a listing: the
/// value's printed form, or `null` where there is none.
pub open spec fn is_literal_column<R: Fn(u64) -> String>(
    number: R,
    literal: Option<LiteralView>,
    text: Seq<char>,
) -> bool {
    match literal {
        Some(l) => is_literal_text(number, l, text),
        None => text == "null"@,
    }
}

/// What `text` must be to be the listing line of `token`: the kind's name,
/// the lexeme and the literal's column, with one space between them.
pub open spec fn is_token_text<R: Fn(u64) -> String>(
    number: R,
    token: TokenView,
    text: Seq<char>,
) -> bool {
    exists|column: Seq<char>| #[trigger]
        is_literal_column(number, token.literal, column) && text
            == token.token_type.spec_name() + " "@ + token.lexeme + " "@ + column
}

impl Token {
    pub fn new(
        token_type: TokenType,
        lexeme: &str,
        literal: Option<Literal>,
        line: usize,
    ) -> (token: Self)
        ensures
            token@ == (TokenView {
                token_type,
                lexeme: lexeme@,
                literal: option_view(literal),
                line,
            }),
    {
        Self { token_type, lexeme: String::from_str(lexeme), literal, line }
    }

    /// The token's line in a listing. Numbers are printed by `number`.
    pub fn render<R: Fn(u64) -> String>(&self, number: &R) -> (text: String)
        requires
            forall|bits: u64| call_requires(number, (bits,)),
        ensures
            is_token_text(*number, self@, text@),
    {
        let literal_text = match &self.literal {
            Some(l) => l.render(number),
            None => String::from_str("null"),
        };
        let mut text = self.token_type.to_string();
        text.append(" ");
        text.append(self.lexeme.as_str());
        text.append(" ");
        text.append(literal_text.as_str());
        assert(is_literal_column(*number, self@.literal, literal_text@));
        text
    }
}

} // verus!
