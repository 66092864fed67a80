//! The scanner: source text in, tokens and lexical errors out.
//!
//! What scanning yields is defined by [`scan_from`], a function of the source
//! alone: it walks the text one [`scan_step`] at a time. The one thing it
//! leaves open is the value of a number literal, which the caller's `parse`
//! function reads from the literal's text.

use crate::lexer::{Literal, LiteralView, Token, TokenType, TokenView};
use crate::reporter::{report_text, SharedReporter};
use vstd::prelude::*;
use vstd::string::{StrSliceExecFns, StringExecFns};

verus! {

/// What the lookahead shows beyond the end of the source.
pub const NULL_C: char = '\0';

/// Whether the standard library counts `c` as alphabetic.
pub uninterp spec fn is_alphabetic_char(c: char) -> bool;

/// Whether the standard library counts `c` as alphabetic or numeric.
pub uninterp spec fn is_alphanumeric_char(c: char) -> bool;

/// `char::is_alphabetic` of the standard library looks the character up in
/// the Unicode tables. All that is claimed here is that its answer depends
/// on the character alone.
pub assume_specification[ char::is_alphabetic ](c: char) -> (r: bool)
    ensures
        r == is_alphabetic_char(c),
;

/// `char::is_alphanumeric` of the standard library looks the character up
/// in the Unicode tables. All that is claimed here is that its answer
/// depends on the character alone.
pub assume_specification[ char::is_alphanumeric ](c: char) -> (r: bool)
    ensures
        r == is_alphanumeric_char(c),
;

/// The last character of ASCII.
pub const LAST_ASCII: char = '\x7f';

/// A character of ASCII.
pub open spec fn is_ascii(c: char) -> bool {
    c <= LAST_ASCII
}

/// A decimal digit, `0` to `9`. No other digit is one: the text of a number
/// must be one that can be read as a number.
pub open spec fn is_digit(c: char) -> bool {
    '0' <= c && c <= '9'
}

/// A letter `a` to `z` or `A` to `Z`.
pub open spec fn is_ascii_letter(c: char) -> bool {
    ('a' <= c && c <= 'z') || ('A' <= c && c <= 'Z')
}

/// A character that may begin an identifier: a letter or an underscore.
/// Within ASCII the letters are `a` to `z` and `A` to `Z`; beyond it they
/// are what the standard library counts as alphabetic.
pub open spec fn is_alpha(c: char) -> bool {
    if is_ascii(c) {
        is_ascii_letter(c) || c == '_'
    } else {
        is_alphabetic_char(c)
    }
}

/// A character that may continue an identifier: a letter, a digit or an
/// underscore. Beyond ASCII it is what the standard library counts as
/// alphabetic or numeric.
pub open spec fn is_alphanumeric(c: char) -> bool {
    if is_ascii(c) {
        is_ascii_letter(c) || is_digit(c) || c == '_'
    } else {
        is_alphanumeric_char(c)
    }
}

/// The character at `i`, or NUL beyond the end.
pub open spec fn peek_at(src: Seq<char>, i: int) -> char {
    if 0 <= i < src.len() {
        src[i]
    } else {
        NULL_C
    }
}

/// The four kinds of run that the scanner consumes greedily.
pub enum Run {
    /// Decimal digits.
    Digits,
    /// Letters, digits and underscores.
    Word,
    /// Everything up to the end of the line.
    Comment,
    /// Everything up to the next double quote.
    Text,
}

/// Whether `c` belongs to a run of the given kind.
pub open spec fn continues(run: Run, c: char) -> bool {
    match run {
        Run::Digits => is_digit(c),
        Run::Word => is_alphanumeric(c),
        Run::Comment => c != '\n',
        Run::Text => c != '"',
    }
}

/// Where the longest run of the given kind that starts at `from` ends: the
/// first index at or after `from` whose character does not belong to it, or
/// the end of the source.
pub open spec fn run_end(src: Seq<char>, run: Run, from: int) -> int
    decreases src.len() - from,
{
    if 0 <= from < src.len() && continues(run, src[from]) {
        run_end(src, run, from + 1)
    } else {
        from
    }
}

/// The number of newlines in `src` from `from` up to `to`.
pub open spec fn newlines(src: Seq<char>, from: int, to: int) -> int
    decreases to - from,
{
    if from >= to || from < 0 || to > src.len() {
        0
    } else if src[to - 1] == '\n' {
        newlines(src, from, to - 1) + 1
    } else {
        newlines(src, from, to - 1)
    }
}

/// Where the number literal that starts at `start` ends: after the digits,
/// and after a dot and more digits if at least one digit follows the dot.
pub open spec fn number_end(src: Seq<char>, start: int) -> int {
    let whole = run_end(src, Run::Digits, start + 1);
    if peek_at(src, whole) == '.' && is_digit(peek_at(src, whole + 1)) {
        run_end(src, Run::Digits, whole + 1)
    } else {
        whole
    }
}

/// The keyword that `text` spells, if it spells one.
pub open spec fn keyword(text: Seq<char>) -> Option<TokenType> {
    if text == "and"@ {
        Some(TokenType::And)
    } else if text == "class"@ {
        Some(TokenType::Class)
    } else if text == "else"@ {
        Some(TokenType::Else)
    } else if text == "false"@ {
        Some(TokenType::False)
    } else if text == "for"@ {
        Some(TokenType::For)
    } else if text == "fun"@ {
        Some(TokenType::Fun)
    } else if text == "if"@ {
        Some(TokenType::If)
    } else if text == "nil"@ {
        Some(TokenType::Nil)
    } else if text == "or"@ {
        Some(TokenType::Or)
    } else if text == "print"@ {
        Some(TokenType::Print)
    } else if text == "return"@ {
        Some(TokenType::Return)
    } else if text == "super"@ {
        Some(TokenType::Super)
    } else if text == "this"@ {
        Some(TokenType::This)
    } else if text == "true"@ {
        Some(TokenType::True)
    } else if text == "var"@ {
        Some(TokenType::Var)
    } else if text == "while"@ {
        Some(TokenType::While)
    } else {
        None
    }
}

/// The kind of a word: its keyword, or an identifier.
pub open spec fn word_kind(text: Seq<char>) -> TokenType {
    match keyword(text) {
        Some(kind) => kind,
        None => TokenType::Identifier,
    }
}

/// What one step of the scanner gives out.
pub enum Emit {
    /// Whitespace, a newline or a comment: nothing.
    Nothing,
    /// A token of this kind, whose text is what the step consumed.
    Token(TokenType),
    /// A lexical error with this message.
    Error(Seq<char>),
}

/// One step of the scanner: where the next step starts, the line there, and
/// what this step gave out. A token or an error is reported at `line`.
pub struct Step {
    pub next: int,
    pub line: int,
    pub emit: Emit,
}

/// A step that consumed up to `next` on one line and gave out a token.
pub open spec fn token_step(next: int, line: int, kind: TokenType) -> Step {
    Step { next, line, emit: Emit::Token(kind) }
}

/// The kind of the token that starts with `c`, where one or two characters
/// settle it; `second` is the character after `c`.
pub open spec fn operator_kind(c: char, second: char) -> Option<(TokenType, int)> {
    if c == '(' {
        Some((TokenType::LeftParen, 1))
    } else if c == ')' {
        Some((TokenType::RightParen, 1))
    } else if c == '{' {
        Some((TokenType::LeftBrace, 1))
    } else if c == '}' {
        Some((TokenType::RightBrace, 1))
    } else if c == ',' {
        Some((TokenType::Comma, 1))
    } else if c == '.' {
        Some((TokenType::Dot, 1))
    } else if c == '-' {
        Some((TokenType::Minus, 1))
    } else if c == '+' {
        Some((TokenType::Plus, 1))
    } else if c == ';' {
        Some((TokenType::Semicolon, 1))
    } else if c == '*' {
        Some((TokenType::Star, 1))
    } else if c == '!' {
        if second == '=' {
            Some((TokenType::BangEqual, 2))
        } else {
            Some((TokenType::Bang, 1))
        }
    } else if c == '=' {
        if second == '=' {
            Some((TokenType::EqualEqual, 2))
        } else {
            Some((TokenType::Equal, 1))
        }
    } else if c == '<' {
        if second == '=' {
            Some((TokenType::LessEqual, 2))
        } else {
            Some((TokenType::Less, 1))
        }
    } else if c == '>' {
        if second == '=' {
            Some((TokenType::GreaterEqual, 2))
        } else {
            Some((TokenType::Greater, 1))
        }
    } else if c == '/' && second != '/' {
        Some((TokenType::Slash, 1))
    } else {
        None
    }
}

/// The step that the scanner takes at `start`, on line `line`.
///
/// Punctuation and operators take the longest match. `//` starts a comment
/// that runs to the end of the line. A newline moves to the next line. A
/// double quote starts a string that runs to the next double quote, over
/// newlines too, and is reported on the line where it ends; without a closing
/// quote it is an error and consumes the rest of the source. A digit starts a
/// number, a letter or underscore a word. Any other character is an error.
pub open spec fn scan_step(src: Seq<char>, start: int, line: int) -> Step
    recommends
        0 <= start < src.len(),
{
    let c = src[start];
    let second = peek_at(src, start + 1);
    if let Some((kind, length)) = operator_kind(c, second) {
        token_step(start + length, line, kind)
    } else if c == '/' {
        Step { next: run_end(src, Run::Comment, start + 2), line, emit: Emit::Nothing }
    } else if c == '\n' {
        Step { next: start + 1, line: line + 1, emit: Emit::Nothing }
    } else if c == ' ' || c == '\r' || c == '\t' {
        Step { next: start + 1, line, emit: Emit::Nothing }
    } else if c == '"' {
        let close = run_end(src, Run::Text, start + 1);
        let last_line = line + newlines(src, start + 1, close);
        if close >= src.len() {
            Step { next: close, line: last_line, emit: Emit::Error("Unterminated string"@) }
        } else {
            token_step(close + 1, last_line, TokenType::String)
        }
    } else if is_digit(c) {
        token_step(number_end(src, start), line, TokenType::Number)
    } else if is_alpha(c) {
        let end = run_end(src, Run::Word, start + 1);
        token_step(end, line, word_kind(src.subrange(start, end)))
    } else {
        Step { next: start + 1, line, emit: Emit::Error("Unexpected character: "@.push(c)) }
    }
}

/// A token as the source alone determines it: kind, text and line.
pub struct Lexeme {
    pub token_type: TokenType,
    pub text: Seq<char>,
    pub line: int,
}

/// The tokens and the error messages of a scan, each in source order.
pub struct Scanned {
    pub tokens: Seq<Lexeme>,
    pub errors: Seq<Seq<char>>,
}

/// The token that a step gave out, if it gave one out.
pub open spec fn step_tokens(src: Seq<char>, start: int, step: Step) -> Seq<Lexeme> {
    match step.emit {
        Emit::Token(kind) => seq![
            Lexeme { token_type: kind, text: src.subrange(start, step.next), line: step.line },
        ],
        _ => Seq::empty(),
    }
}

/// The error that a step recorded, if it recorded one: it carries no location.
pub open spec fn step_errors(step: Step) -> Seq<Seq<char>> {
    match step.emit {
        Emit::Error(message) => seq![report_text(step.line as nat, ""@, message)],
        _ => Seq::empty(),
    }
}

/// The end-of-input token on line `line`.
pub open spec fn end_marker(line: int) -> Lexeme {
    Lexeme { token_type: TokenType::Eof, text: ""@, line }
}

/// What scanning `src` from `pos` on, starting on line `line`, yields: the
/// tokens and errors of each step in turn, then the end-of-input token.
pub open spec fn scan_from(src: Seq<char>, pos: int, line: int) -> Scanned
    decreases src.len() - pos,
    when 0 <= pos
    via scan_from_decreases
{
    if pos >= src.len() {
        Scanned { tokens: seq![end_marker(line)], errors: Seq::empty() }
    } else {
        let step = scan_step(src, pos, line);
        let rest = scan_from(src, step.next, step.line);
        Scanned {
            tokens: step_tokens(src, pos, step) + rest.tokens,
            errors: step_errors(step) + rest.errors,
        }
    }
}

#[via_fn]
proof fn scan_from_decreases(src: Seq<char>, pos: int, line: int) {
    if pos < src.len() {
        lemma_step_advances(src, pos, line);
    }
}

/// What scanning the whole of `src` yields.
pub open spec fn scan(src: Seq<char>) -> Scanned {
    scan_from(src, 0, 1)
}

/// A run ends at or after its start and within the source, every character
/// in it belongs to it, and the character after it does not.
pub proof fn lemma_run_end(src: Seq<char>, run: Run, from: int)
    requires
        0 <= from <= src.len(),
    ensures
        from <= run_end(src, run, from) <= src.len(),
        forall|i: int| from <= i < run_end(src, run, from) ==> continues(run, #[trigger] src[i]),
        run_end(src, run, from) < src.len() ==> !continues(run, src[run_end(src, run, from)]),
    decreases src.len() - from,
{
    if from < src.len() && continues(run, src[from]) {
        lemma_run_end(src, run, from + 1);
    }
}

/// A number literal ends after its first digit or later, within the source.
pub proof fn lemma_number_end(src: Seq<char>, start: int)
    requires
        0 <= start < src.len(),
    ensures
        start < number_end(src, start) <= src.len(),
{
    lemma_run_end(src, Run::Digits, start + 1);
    let whole = run_end(src, Run::Digits, start + 1);
    if peek_at(src, whole) == '.' && is_digit(peek_at(src, whole + 1)) {
        lemma_run_end(src, Run::Digits, whole + 1);
    }
}

/// Every step consumes at least one character and stays within the source.
pub proof fn lemma_step_advances(src: Seq<char>, start: int, line: int)
    requires
        0 <= start < src.len(),
    ensures
        start < scan_step(src, start, line).next <= src.len(),
{
    let c = src[start];
    let second = peek_at(src, start + 1);
    if operator_kind(c, second) is Some {
    } else if c == '/' {
        lemma_run_end(src, Run::Comment, start + 2);
    } else if c == '"' {
        lemma_run_end(src, Run::Text, start + 1);
    } else if is_digit(c) {
        lemma_number_end(src, start);
    } else if is_alpha(c) {
        lemma_run_end(src, Run::Word, start + 1);
    }
}

/// A count of newlines is not negative, is at most the number of characters
/// counted over, and adds up over adjoining ranges.
pub proof fn lemma_newlines(src: Seq<char>, from: int, mid: int, to: int)
    requires
        0 <= from <= mid <= to <= src.len(),
    ensures
        0 <= newlines(src, from, to) <= to - from,
        newlines(src, from, to) == newlines(src, from, mid) + newlines(src, mid, to),
    decreases to - mid,
{
    lemma_newlines_bound(src, from, to);
    if mid < to {
        lemma_newlines(src, from, mid, to - 1);
    }
}

/// A count of newlines is not negative and at most the number of characters counted over.
pub proof fn lemma_newlines_bound(src: Seq<char>, from: int, to: int)
    requires
        0 <= from <= to <= src.len(),
    ensures
        0 <= newlines(src, from, to) <= to - from,
    decreases to - from,
{
    if from < to {
        lemma_newlines_bound(src, from, to - 1);
    }
}

/// A stretch of the source without a newline counts no newline.
pub proof fn lemma_no_newlines(src: Seq<char>, from: int, to: int)
    requires
        0 <= from <= to <= src.len(),
        forall|i: int| from <= i < to ==> #[trigger] src[i] != '\n',
    ensures
        newlines(src, from, to) == 0,
    decreases to - from,
{
    if from < to {
        lemma_no_newlines(src, from, to - 1);
    }
}

/// A step moves on by as many lines as it consumed newlines, and gives out
/// no end-of-input token.
pub proof fn lemma_step_lines(src: Seq<char>, start: int, line: int)
    requires
        0 <= start < src.len(),
    ensures
        scan_step(src, start, line).line == line + newlines(
            src,
            start,
            scan_step(src, start, line).next,
        ),
        scan_step(src, start, line).emit != Emit::Token(TokenType::Eof),
{
    let c = src[start];
    let second = peek_at(src, start + 1);
    let step = scan_step(src, start, line);
    lemma_step_advances(src, start, line);
    reveal_with_fuel(newlines, 3);
    if operator_kind(c, second) is Some {
        assert(newlines(src, start, step.next) == 0);
    } else if c == '/' {
        lemma_run_end(src, Run::Comment, start + 2);
        lemma_no_newlines(src, start, step.next);
    } else if c == '\n' {
    } else if c == ' ' || c == '\r' || c == '\t' {
    } else if c == '"' {
        let close = run_end(src, Run::Text, start + 1);
        lemma_run_end(src, Run::Text, start + 1);
        lemma_newlines(src, start, start + 1, close);
        if close < src.len() {
            lemma_newlines(src, start, close, close + 1);
        }
    } else if is_digit(c) {
        lemma_number_end(src, start);
        lemma_run_end(src, Run::Digits, start + 1);
        let whole = run_end(src, Run::Digits, start + 1);
        if peek_at(src, whole) == '.' && is_digit(peek_at(src, whole + 1)) {
            lemma_run_end(src, Run::Digits, whole + 1);
        }
        lemma_no_newlines(src, start, step.next);
    } else if is_alpha(c) {
        lemma_run_end(src, Run::Word, start + 1);
        lemma_no_newlines(src, start, step.next);
    } else {
    }
}

/// Every scan yields at least one token, and only its last token is the
/// end-of-input token. That token has no text, and its line is the line
/// where the scan began plus the number of newlines scanned over.
pub proof fn lemma_scan_ends_with_marker(src: Seq<char>, pos: int, line: int)
    requires
        0 <= pos <= src.len(),
    ensures
        scan_from(src, pos, line).tokens.len() >= 1,
        scan_from(src, pos, line).tokens.last() == end_marker(
            line + newlines(src, pos, src.len() as int),
        ),
        forall|i: int|
            0 <= i < scan_from(src, pos, line).tokens.len() - 1 ==> (#[trigger] scan_from(
                src,
                pos,
                line,
            ).tokens[i]).token_type != TokenType::Eof,
    decreases src.len() - pos,
{
    if pos < src.len() {
        let step = scan_step(src, pos, line);
        lemma_step_advances(src, pos, line);
        lemma_step_lines(src, pos, line);
        lemma_scan_ends_with_marker(src, step.next, step.line);
        lemma_newlines(src, pos, step.next, src.len() as int);
    }
}

/// The classes of tokens.
pub enum Class {
    /// Punctuation and operators, of one or two characters.
    Punctuation,
    /// Numbers and strings.
    Literal,
    /// Identifiers and keywords.
    Word,
    /// The end-of-input token.
    End,
}

/// The class of a kind of token.
pub open spec fn class_of(kind: TokenType) -> Class {
    match kind {
        TokenType::LeftParen
        | TokenType::RightParen
        | TokenType::LeftBrace
        | TokenType::RightBrace
        | TokenType::Comma
        | TokenType::Dot
        | TokenType::Minus
        | TokenType::Plus
        | TokenType::Semicolon
        | TokenType::Slash
        | TokenType::Star
        | TokenType::Bang
        | TokenType::BangEqual
        | TokenType::Equal
        | TokenType::EqualEqual
        | TokenType::Greater
        | TokenType::GreaterEqual
        | TokenType::Less
        | TokenType::LessEqual => Class::Punctuation,
        TokenType::String | TokenType::Number => Class::Literal,
        TokenType::Eof => Class::End,
        _ => Class::Word,
    }
}

/// How many of `tokens` are of class `class`.
pub open spec fn count(tokens: Seq<Lexeme>, class: Class) -> nat
    decreases tokens.len(),
{
    if tokens.len() == 0 {
        0
    } else {
        count(tokens.drop_last(), class) + if class_of(tokens.last().token_type) == class {
            1nat
        } else {
            0nat
        }
    }
}

/// Every token is of one class.
pub proof fn lemma_count_classes(tokens: Seq<Lexeme>)
    ensures
        tokens.len() == count(tokens, Class::Punctuation) + count(tokens, Class::Literal) + count(
            tokens,
            Class::Word,
        ) + count(tokens, Class::End),
    decreases tokens.len(),
{
    if tokens.len() > 0 {
        lemma_count_classes(tokens.drop_last());
    }
}

/// Tokens of which none is the end-of-input token count no such token.
pub proof fn lemma_count_no_end(tokens: Seq<Lexeme>)
    requires
        forall|i: int|
            0 <= i < tokens.len() ==> (#[trigger] tokens[i]).token_type != TokenType::Eof,
    ensures
        count(tokens, Class::End) == 0,
    decreases tokens.len(),
{
    if tokens.len() > 0 {
        let front = tokens.drop_last();
        assert forall|i: int| 0 <= i < front.len() implies (#[trigger] front[i]).token_type
            != TokenType::Eof by {
            assert(front[i] == tokens[i]);
        }
        lemma_count_no_end(front);
        assert(tokens.last() == tokens[tokens.len() - 1]);
    }
}

/// A scan yields as many tokens as it yields punctuation, literals and
/// words, and one more, the end-of-input token. So where the source holds no
/// identifier and no keyword, the tokens are the punctuation, the literals
/// and the end-of-input token.
pub proof fn lemma_scan_token_count(src: Seq<char>, pos: int, line: int)
    requires
        0 <= pos <= src.len(),
    ensures
        scan_from(src, pos, line).tokens.len() == count(
            scan_from(src, pos, line).tokens,
            Class::Punctuation,
        ) + count(scan_from(src, pos, line).tokens, Class::Literal) + count(
            scan_from(src, pos, line).tokens,
            Class::Word,
        ) + 1,
{
    let tokens = scan_from(src, pos, line).tokens;
    lemma_scan_ends_with_marker(src, pos, line);
    lemma_count_classes(tokens);
    let front = tokens.drop_last();
    assert forall|i: int| 0 <= i < front.len() implies (#[trigger] front[i]).token_type
        != TokenType::Eof by {
        assert(front[i] == tokens[i]);
    }
    lemma_count_no_end(front);
}

/// Counting over two runs of tokens, one after the other, adds up.
pub proof fn lemma_count_add(first: Seq<Lexeme>, second: Seq<Lexeme>, class: Class)
    ensures
        count(first + second, class) == count(first, class) + count(second, class),
    decreases second.len(),
{
    if second.len() == 0 {
        assert(first + second =~= first);
    } else {
        assert((first + second).drop_last() =~= first + second.drop_last());
        assert((first + second).last() == second.last());
        lemma_count_add(first, second.drop_last(), class);
    }
}

/// Whether what begins at `start` is plain: punctuation or an operator, a
/// comment, a newline, a blank, a number, or a string that is closed.
pub open spec fn begins_plain(src: Seq<char>, start: int) -> bool
    recommends
        0 <= start < src.len(),
{
    let c = src[start];
    ||| operator_kind(c, peek_at(src, start + 1)) is Some
    ||| c == '/'
    ||| c == '\n' || c == ' ' || c == '\r' || c == '\t'
    ||| is_digit(c)
    ||| c == '"' && run_end(src, Run::Text, start + 1) < src.len()
}

/// Whether the source from `pos` on is plain: made of punctuation,
/// operators, numbers and closed strings, with blanks, newlines and comments
/// between them, and of nothing else. Every step of the scan must begin
/// with one of these; what a string or a comment holds is free.
pub open spec fn is_plain_from(src: Seq<char>, pos: int) -> bool
    decreases src.len() - pos,
    when 0 <= pos
    via is_plain_from_decreases
{
    if pos >= src.len() {
        true
    } else {
        begins_plain(src, pos) && is_plain_from(src, scan_step(src, pos, 1).next)
    }
}

#[via_fn]
proof fn is_plain_from_decreases(src: Seq<char>, pos: int) {
    if pos < src.len() {
        lemma_step_advances(src, pos, 1);
    }
}

/// A character that, outside strings and comments, is punctuation, part of
/// an operator, a digit, a blank or a newline.
pub open spec fn is_plain_char(c: char) -> bool {
    is_punctuation(c) || c == '!' || c == '=' || c == '<' || c == '>' || c == '/' || c == '\n'
        || c == ' ' || c == '\r' || c == '\t' || is_digit(c)
}

/// A source of punctuation, operators, digits, blanks and newlines alone is plain.
pub proof fn lemma_plain_characters(src: Seq<char>, pos: int)
    requires
        0 <= pos <= src.len(),
        forall|i: int| pos <= i < src.len() ==> is_plain_char(#[trigger] src[i]),
    ensures
        is_plain_from(src, pos),
    decreases src.len() - pos,
{
    if pos < src.len() {
        assert(is_plain_char(src[pos]));
        lemma_step_advances(src, pos, 1);
        lemma_plain_characters(src, scan_step(src, pos, 1).next);
    }
}

/// A plain source scans without an error and without a word: its tokens
/// are its punctuation, operators, numbers and strings, one token each, and
/// the end-of-input token after them.
pub proof fn lemma_scan_plain(src: Seq<char>, pos: int, line: int)
    requires
        0 <= pos <= src.len(),
        is_plain_from(src, pos),
    ensures
        scan_from(src, pos, line).errors.len() == 0,
        count(scan_from(src, pos, line).tokens, Class::Word) == 0,
        scan_from(src, pos, line).tokens.len() == count(
            scan_from(src, pos, line).tokens,
            Class::Punctuation,
        ) + count(scan_from(src, pos, line).tokens, Class::Literal) + 1,
    decreases src.len() - pos,
{
    lemma_scan_token_count(src, pos, line);
    if pos < src.len() {
        let step = scan_step(src, pos, line);
        let rest = scan_from(src, step.next, step.line);
        let first = step_tokens(src, pos, step);
        lemma_step_advances(src, pos, line);
        assert(step.next == scan_step(src, pos, 1).next);
        lemma_scan_plain(src, step.next, step.line);
        assert(!(step.emit is Error));
        assert(count(first, Class::Word) == 0) by {
            reveal_with_fuel(count, 2);
            if let Emit::Token(kind) = step.emit {
                assert(first.drop_last() =~= Seq::<Lexeme>::empty());
                assert(class_of(kind) != Class::Word);
            }
        }
        lemma_count_add(first, rest.tokens, Class::Word);
    }
}

/// The characters that are a token by themselves, whatever follows them.
pub open spec fn is_punctuation(c: char) -> bool {
    c == '(' || c == ')' || c == '{' || c == '}' || c == ',' || c == '.' || c == '-' || c == '+'
        || c == ';' || c == '*'
}

/// A source of punctuation alone yields one token for each character, then
/// the end-of-input token, all on the line where the scan began, and no error.
pub proof fn lemma_scan_punctuation(src: Seq<char>, pos: int, line: int)
    requires
        0 <= pos <= src.len(),
        forall|i: int| pos <= i < src.len() ==> is_punctuation(#[trigger] src[i]),
    ensures
        scan_from(src, pos, line).tokens.len() == src.len() - pos + 1,
        scan_from(src, pos, line).errors.len() == 0,
        forall|i: int|
            0 <= i < scan_from(src, pos, line).tokens.len() ==> (#[trigger] scan_from(
                src,
                pos,
                line,
            ).tokens[i]).line == line,
    decreases src.len() - pos,
{
    if pos < src.len() {
        assert(is_punctuation(src[pos]));
        lemma_scan_punctuation(src, pos + 1, line);
    }
}

/// Whether `parse` returns the same number for the same text.
pub open spec fn is_deterministic<P: Fn(&str) -> u64>(parse: P) -> bool {
    forall|s: &str, t: &str, x: u64, y: u64|
        s@ == t@ && #[trigger] call_ensures(parse, (s,), x) && #[trigger] call_ensures(
            parse,
            (t,),
            y,
        ) ==> x == y
}

/// Scanning the same source twice yields the same errors and the same
/// tokens: two scans of one source are equal error for error, and token for
/// token in kind, text and line, and in the value of everything but a
/// number. The numbers are equal too where `parse` returns the same number
/// for the same text.
pub proof fn lemma_rescan_identical<P: Fn(&str) -> u64>(
    parse: P,
    src: Seq<char>,
    first: Seq<Token>,
    first_errors: Seq<Seq<char>>,
    second: Seq<Token>,
    second_errors: Seq<Seq<char>>,
)
    requires
        tokens_fit(parse, first, scan(src).tokens),
        first_errors == scan(src).errors,
        tokens_fit(parse, second, scan(src).tokens),
        second_errors == scan(src).errors,
    ensures
        first_errors == second_errors,
        first.len() == second.len(),
        forall|i: int|
            0 <= i < first.len() ==> {
                &&& (#[trigger] first[i])@.token_type == second[i]@.token_type
                &&& first[i]@.lexeme == second[i]@.lexeme
                &&& first[i]@.line == second[i]@.line
                &&& first[i]@.token_type != TokenType::Number ==> first[i]@ == second[i]@
            },
        is_deterministic(parse) ==> crate::lexer::token_views(first) == crate::lexer::token_views(
            second,
        ),
{
    let lexemes = scan(src).tokens;
    assert forall|i: int| 0 <= i < first.len() implies {
        &&& (#[trigger] first[i])@.token_type == second[i]@.token_type
        &&& first[i]@.lexeme == second[i]@.lexeme
        &&& first[i]@.line == second[i]@.line
        &&& first[i]@.token_type != TokenType::Number ==> first[i]@ == second[i]@
    } by {
        assert(token_fits(parse, first[i]@, lexemes[i]));
        assert(token_fits(parse, second[i]@, lexemes[i]));
    }
    if is_deterministic(parse) {
        assert forall|i: int| 0 <= i < first.len() implies first[i]@ == second[i]@ by {
            let a = first[i]@;
            let b = second[i]@;
            assert(token_fits(parse, a, lexemes[i]));
            assert(token_fits(parse, b, lexemes[i]));
            if lexemes[i].token_type == TokenType::Number {
                let x = a.literal->Some_0->Number_0;
                let y = b.literal->Some_0->Number_0;
                let text = lexemes[i].text;
                assert(is_number_value(parse, text, x));
                assert(is_number_value(parse, text, y));
                let s = choose|s: &str| #[trigger] call_ensures(parse, (s,), x) && s@ == text;
                let t = choose|t: &str| #[trigger] call_ensures(parse, (t,), y) && t@ == text;
                assert(x == y);
            }
        }
        assert(crate::lexer::token_views(first) =~= crate::lexer::token_views(second));
    }
}

/// Whether `text` is digits, or digits, a dot and digits, with `d` digits
/// before the dot or the end.
pub open spec fn is_number_text_at(text: Seq<char>, d: int) -> bool {
    &&& 0 < d <= text.len()
    &&& forall|i: int| 0 <= i < d ==> is_digit(#[trigger] text[i])
    &&& d == text.len() || {
        &&& text[d] == '.'
        &&& d + 1 < text.len()
        &&& forall|i: int| d < i < text.len() ==> is_digit(#[trigger] text[i])
    }
}

/// The texts that number literals have: one or more digits, and then
/// possibly a dot and one or more digits.
pub open spec fn is_number_text(text: Seq<char>) -> bool {
    exists|d: int| is_number_text_at(text, d)
}

/// What the scanner asks of the function that reads number literals: that
/// it can be called on every text that a number literal can have.
pub open spec fn reads_numbers<P: Fn(&str) -> u64>(parse: P) -> bool {
    forall|s: &str| is_number_text(s@) ==> #[trigger] call_requires(parse, (s,))
}

/// Whether `bits` is what `parse` returned for `text`.
pub open spec fn is_number_value<P: Fn(&str) -> u64>(parse: P, text: Seq<char>, bits: u64) -> bool {
    exists|s: &str| #[trigger] call_ensures(parse, (s,), bits) && s@ == text
}

/// Whether `literal` is the value of a token of this kind and text: a string
/// carries its text without the quotes, a number what `parse` returned for
/// its text, and every other token nothing.
pub open spec fn literal_fits<P: Fn(&str) -> u64>(
    parse: P,
    kind: TokenType,
    text: Seq<char>,
    literal: Option<LiteralView>,
) -> bool {
    if kind == TokenType::String {
        literal == Some(LiteralView::String(text.subrange(1, text.len() - 1)))
    } else if kind == TokenType::Number {
        literal matches Some(LiteralView::Number(bits)) && is_number_value(parse, text, bits)
    } else {
        literal is None
    }
}

/// Whether `token` is `lexeme` with the value that belongs to it.
pub open spec fn token_fits<P: Fn(&str) -> u64>(
    parse: P,
    token: TokenView,
    lexeme: Lexeme,
) -> bool {
    &&& token.token_type == lexeme.token_type
    &&& token.lexeme == lexeme.text
    &&& token.line as int == lexeme.line
    &&& literal_fits(parse, lexeme.token_type, lexeme.text, token.literal)
}

/// Whether `tokens` are `lexemes`, one for one and in order.
pub open spec fn tokens_fit<P: Fn(&str) -> u64>(
    parse: P,
    tokens: Seq<Token>,
    lexemes: Seq<Lexeme>,
) -> bool {
    &&& tokens.len() == lexemes.len()
    &&& forall|i: int|
        0 <= i < tokens.len() ==> token_fits(parse, (#[trigger] tokens[i])@, lexemes[i])
}

/// Tokens that fit some lexemes, with more tokens after them that fit more
/// lexemes, fit them all; what stood before them stands as it did.
pub proof fn lemma_more_tokens_fit<P: Fn(&str) -> u64>(
    parse: P,
    before: int,
    earlier: Seq<Token>,
    tokens: Seq<Token>,
    lexemes: Seq<Lexeme>,
    added: Seq<Lexeme>,
)
    requires
        0 <= before <= earlier.len() <= tokens.len(),
        tokens.subrange(0, earlier.len() as int) == earlier,
        tokens_fit(parse, earlier.subrange(before, earlier.len() as int), lexemes),
        tokens_fit(parse, tokens.subrange(earlier.len() as int, tokens.len() as int), added),
    ensures
        tokens.subrange(0, before) == earlier.subrange(0, before),
        tokens_fit(parse, tokens.subrange(before, tokens.len() as int), lexemes + added),
{
    let n = earlier.len() as int;
    let all = tokens.subrange(before, tokens.len() as int);
    let old_part = earlier.subrange(before, n);
    let new_part = tokens.subrange(n, tokens.len() as int);
    assert forall|i: int| 0 <= i < n implies tokens[i] == earlier[i] by {
        assert(tokens.subrange(0, n)[i] == tokens[i]);
    }
    assert(tokens.subrange(0, before) =~= earlier.subrange(0, before));
    assert forall|i: int| 0 <= i < all.len() implies token_fits(
        parse,
        (#[trigger] all[i])@,
        (lexemes + added)[i],
    ) by {
        if i < lexemes.len() {
            assert(all[i] == old_part[i]);
        } else {
            assert(all[i] == new_part[i - lexemes.len()]);
        }
    }
}

/// A number literal's text is digits, or digits, a dot and digits.
pub proof fn lemma_number_text(src: Seq<char>, start: int)
    requires
        0 <= start < src.len(),
        is_digit(src[start]),
    ensures
        is_number_text(src.subrange(start, number_end(src, start))),
{
    lemma_number_end(src, start);
    lemma_run_end(src, Run::Digits, start + 1);
    let whole = run_end(src, Run::Digits, start + 1);
    let text = src.subrange(start, number_end(src, start));
    if peek_at(src, whole) == '.' && is_digit(peek_at(src, whole + 1)) {
        lemma_run_end(src, Run::Digits, whole + 1);
        assert forall|i: int| whole - start < i < text.len() implies is_digit(
            #[trigger] text[i],
        ) by {
            assert(text[i] == src[start + i]);
        }
    }
    assert forall|i: int| 0 <= i < whole - start implies is_digit(#[trigger] text[i]) by {
        assert(text[i] == src[start + i]);
    }
    assert(is_number_text_at(text, whole - start));
}

pub struct Scanner {
    /// The characters of the source, and one NUL after them, so that looking
    /// ahead needs no test for the end.
    pub chars: Vec<char>,
    pub reporter: SharedReporter,
    pub tokens: Vec<Token>,
    /// Where the step that is being taken began.
    pub start: usize,
    pub current: usize,
    pub line: usize,
}

impl Scanner {
    /// The source that is being scanned.
    pub open spec fn source(&self) -> Seq<char> {
        self.chars@.drop_last()
    }

    /// How many characters have been consumed.
    pub open spec fn cursor(&self) -> int {
        self.current as int
    }

    /// The line that the cursor is on; the first line is 1.
    pub open spec fn line_number(&self) -> int {
        self.line as int
    }

    /// What holds of every scanner: the cursor is within the source, and the
    /// line is at most one more than the characters consumed.
    pub open spec fn wf(&self) -> bool {
        &&& self.chars@.last() == NULL_C
        &&& self.start <= self.current < self.chars.len()
        &&& 1 <= self.line <= self.current + 1
    }

    /// A scanner at the start of `source`, on line 1, that will record its
    /// errors in `reporter`.
    pub fn new(source: &str, reporter: SharedReporter) -> (scanner: Self)
        ensures
            scanner.wf(),
            scanner.source() == source@,
            scanner.cursor() == 0,
            scanner.line_number() == 1,
            scanner.tokens@.len() == 0,
            scanner.reporter == reporter,
    {
        let mut chars: Vec<char> = Vec::new();
        for c in it: source.chars()
            invariant
                it.seq() == source@,
                chars@.len() == it.index(),
                forall|j: int| 0 <= j < chars@.len() ==> chars@[j] == it.seq()[j],
        {
            chars.push(c);
        }
        assert(chars@ =~= source@);
        chars.push(NULL_C);
        assert(chars@.drop_last() =~= source@);
        Self {
            chars,
            reporter,
            tokens: Vec::new(),
            start: 0,
            current: 0,
            // Source, even if empty, starts at the first line.
            line: 1,
        }
    }

    /// Scans the rest of the source: appends the tokens of every step, then
    /// the end-of-input token, and records every lexical error. No error
    /// stops the scan.
    pub fn scan_tokens<P: Fn(&str) -> u64>(&mut self, parse: &P)
        requires
            old(self).wf(),
            reads_numbers(*parse),
        ensures
            final(self).wf(),
            final(self).source() == old(self).source(),
            final(self).cursor() == final(self).source().len(),
            ({
                let scanned = scan_from(
                    old(self).source(),
                    old(self).cursor(),
                    old(self).line_number(),
                );
                let before = old(self).tokens@.len() as int;
                &&& final(self).tokens@.len() == before + scanned.tokens.len()
                &&& final(self).tokens@.subrange(0, before) == old(self).tokens@
                &&& tokens_fit(
                    *parse,
                    final(self).tokens@.subrange(before, final(self).tokens@.len() as int),
                    scanned.tokens,
                )
                &&& final(self).reporter@ == old(self).reporter@ + scanned.errors
            }),
    {
        let ghost src = self.source();
        let ghost initial = scan_from(src, self.cursor(), self.line_number());
        let ghost before = self.tokens@.len() as int;
        let ghost lexemes: Seq<Lexeme> = Seq::empty();
        let ghost errors: Seq<Seq<char>> = Seq::empty();
        assert(self.tokens@.subrange(0, before) =~= old(self).tokens@);
        assert(self.reporter@ + errors =~= old(self).reporter@);
        while !self.is_at_end()
            invariant
                self.wf(),
                reads_numbers(*parse),
                self.source() == src,
                before == old(self).tokens@.len(),
                self.tokens@.len() == before + lexemes.len(),
                self.tokens@.subrange(0, before) == old(self).tokens@,
                tokens_fit(
                    *parse,
                    self.tokens@.subrange(before, self.tokens@.len() as int),
                    lexemes,
                ),
                self.reporter@ == old(self).reporter@ + errors,
                initial.tokens == lexemes + scan_from(
                    src,
                    self.cursor(),
                    self.line_number(),
                ).tokens,
                initial.errors == errors + scan_from(
                    src,
                    self.cursor(),
                    self.line_number(),
                ).errors,
            decreases src.len() - self.cursor(),
        {
            let ghost earlier = self.tokens@;
            let ghost mark = self.cursor();
            let ghost step = scan_step(src, mark, self.line_number());
            let ghost rest = scan_from(src, step.next, step.line);
            self.start = self.current;
            self.scan_token(parse);
            proof {
                let added = step_tokens(src, mark, step);
                lemma_step_advances(src, mark, old(self).line_number());
                lemma_more_tokens_fit(*parse, before, earlier, self.tokens@, lexemes, added);
                assert(lexemes + (added + rest.tokens) =~= (lexemes + added) + rest.tokens);
                assert(errors + (step_errors(step) + rest.errors) =~= (errors + step_errors(step))
                    + rest.errors);
                assert(old(self).reporter@ + (errors + step_errors(step)) =~= (old(self).reporter@
                    + errors) + step_errors(step));
                lexemes = lexemes + added;
                errors = errors + step_errors(step);
            }
        }
        let ghost earlier = self.tokens@;
        self.tokens.push(Token::new(TokenType::Eof, "", None, self.line));
        proof {
            let marker = seq![end_marker(self.line_number())];
            let n = earlier.len() as int;
            assert(self.tokens@.subrange(0, n) =~= earlier);
            assert(self.tokens@.subrange(n, n + 1)[0] == self.tokens@[n]);
            lemma_more_tokens_fit(*parse, before, earlier, self.tokens@, lexemes, marker);
            assert(initial.tokens =~= lexemes + marker);
            assert(initial.errors =~= errors);
        }
    }

    /// Takes one step: consumes one token, comment, newline or blank, or one
    /// character that nothing starts with, and appends the token or records
    /// the error.
    fn scan_token<P: Fn(&str) -> u64>(&mut self, parse: &P)
        requires
            old(self).wf(),
            old(self).start == old(self).current,
            old(self).cursor() < old(self).source().len(),
            reads_numbers(*parse),
        ensures
            final(self).wf(),
            final(self).source() == old(self).source(),
            ({
                let src = old(self).source();
                let step = scan_step(src, old(self).cursor(), old(self).line_number());
                let before = old(self).tokens@.len() as int;
                &&& final(self).cursor() == step.next
                &&& final(self).line_number() == step.line
                &&& final(self).tokens@.len() >= before
                &&& final(self).tokens@.subrange(0, before) == old(self).tokens@
                &&& tokens_fit(
                    *parse,
                    final(self).tokens@.subrange(before, final(self).tokens@.len() as int),
                    step_tokens(src, old(self).cursor(), step),
                )
                &&& final(self).reporter@ == old(self).reporter@ + step_errors(step)
            }),
    {
        let ghost src = self.source();
        let ghost before = self.tokens@.len() as int;
        proof {
            lemma_step_advances(src, self.cursor(), self.line_number());
            assert(self.tokens@.subrange(0, before) =~= self.tokens@);
            assert(self.reporter@ + Seq::<Seq<char>>::empty() =~= self.reporter@);
        }
        let c = self.advance();
        let token_type = match c {
            '(' => Some(TokenType::LeftParen),
            ')' => Some(TokenType::RightParen),
            '{' => Some(TokenType::LeftBrace),
            '}' => Some(TokenType::RightBrace),
            ',' => Some(TokenType::Comma),
            '.' => Some(TokenType::Dot),
            '-' => Some(TokenType::Minus),
            '+' => Some(TokenType::Plus),
            ';' => Some(TokenType::Semicolon),
            '*' => Some(TokenType::Star),
            '!' => Some(
                if self.match_char('=') {
                    TokenType::BangEqual
                } else {
                    TokenType::Bang
                },
            ),
            '=' => Some(
                if self.match_char('=') {
                    TokenType::EqualEqual
                } else {
                    TokenType::Equal
                },
            ),
            '<' => Some(
                if self.match_char('=') {
                    TokenType::LessEqual
                } else {
                    TokenType::Less
                },
            ),
            '>' => Some(
                if self.match_char('=') {
                    TokenType::GreaterEqual
                } else {
                    TokenType::Greater
                },
            ),
            '/' => {
                if self.match_char('/') {
                    // Skip until the end of the line for comments
                    while self.peek() != '\n' && !self.is_at_end()
                        invariant
                            self.wf(),
                            self.source() == src,
                            self.start == old(self).start,
                            self.line == old(self).line,
                            self.tokens == old(self).tokens,
                            self.reporter == old(self).reporter,
                            old(self).cursor() + 2 <= self.cursor(),
                            run_end(src, Run::Comment, self.cursor()) == run_end(
                                src,
                                Run::Comment,
                                old(self).cursor() + 2,
                            ),
                        decreases src.len() - self.cursor(),
                    {
                        self.advance();
                    }
                    None
                } else {
                    Some(TokenType::Slash)
                }
            },
            '\n' => {
                self.line += 1;
                None
            },
            ' ' | '\r' | '\t' => None,  // Ignore whitespace
            '"' => {
                self.string();
                proof {
                    let close = run_end(src, Run::Text, old(self).cursor() + 1);
                    let text = src.subrange(old(self).cursor(), close + 1);
                    lemma_run_end(src, Run::Text, old(self).cursor() + 1);
                    if close < src.len() {
                        assert(text.subrange(1, text.len() - 1) =~= src.subrange(
                            old(self).cursor() + 1,
                            close,
                        ));
                    }
                }
                None
            },
            _ => {
                if self.is_digit(c) {
                    self.number(parse);
                    None
                } else if self.is_alpha(c) {
                    self.identifier();
                    None
                } else {
                    let mut message = String::from_str("Unexpected character: ");
                    message.push(c);
                    self.reporter.report(self.line, "", message.as_str());
                    None
                }
            },
        };

        if let Some(token) = token_type {
            self.add_char_token(token);
            assert(self.tokens@.subrange(0, before) =~= old(self).tokens@);
        }
    }

    fn is_digit(&self, c: char) -> (r: bool)
        ensures
            r == is_digit(c),
    {
        '0' <= c && c <= '9'
    }

    fn is_alpha(&self, c: char) -> (r: bool)
        ensures
            r == is_alpha(c),
    {
        if c <= LAST_ASCII {
            ('a' <= c && c <= 'z') || ('A' <= c && c <= 'Z') || c == '_'
        } else {
            c.is_alphabetic()
        }
    }

    fn is_alphanumeric(&self, c: char) -> (r: bool)
        ensures
            r == is_alphanumeric(c),
    {
        if c <= LAST_ASCII {
            self.is_alpha(c) || self.is_digit(c)
        } else {
            c.is_alphanumeric()
        }
    }

    /// Whether the text from `from` up to `to` is `word`.
    fn spells(&self, from: usize, to: usize, word: &str) -> (r: bool)
        requires
            self.wf(),
            from <= to <= self.source().len(),
        ensures
            r == (self.source().subrange(from as int, to as int) == word@),
    {
        let length = word.unicode_len();
        if to - from != length {
            return false;
        }
        let mut i: usize = 0;
        while i < length
            invariant
                self.wf(),
                from <= to <= self.source().len(),
                to - from == length,
                length == word@.len(),
                0 <= i <= length,
                forall|j: int| 0 <= j < i ==> self.source()[from + j] == word@[j],
            decreases length - i,
        {
            if self.chars[from + i] != word.get_char(i) {
                assert(self.source().subrange(from as int, to as int)[i as int] != word@[i as int]);
                return false;
            }
            i += 1;
        }
        assert(self.source().subrange(from as int, to as int) =~= word@);
        true
    }

    /// The keyword that the text from `from` up to `to` spells, if any.
    fn keyword(&self, from: usize, to: usize) -> (kind: Option<TokenType>)
        requires
            self.wf(),
            from <= to <= self.source().len(),
        ensures
            kind == keyword(self.source().subrange(from as int, to as int)),
    {
        if self.spells(from, to, "and") {
            Some(TokenType::And)
        } else if self.spells(from, to, "class") {
            Some(TokenType::Class)
        } else if self.spells(from, to, "else") {
            Some(TokenType::Else)
        } else if self.spells(from, to, "false") {
            Some(TokenType::False)
        } else if self.spells(from, to, "for") {
            Some(TokenType::For)
        } else if self.spells(from, to, "fun") {
            Some(TokenType::Fun)
        } else if self.spells(from, to, "if") {
            Some(TokenType::If)
        } else if self.spells(from, to, "nil") {
            Some(TokenType::Nil)
        } else if self.spells(from, to, "or") {
            Some(TokenType::Or)
        } else if self.spells(from, to, "print") {
            Some(TokenType::Print)
        } else if self.spells(from, to, "return") {
            Some(TokenType::Return)
        } else if self.spells(from, to, "super") {
            Some(TokenType::Super)
        } else if self.spells(from, to, "this") {
            Some(TokenType::This)
        } else if self.spells(from, to, "true") {
            Some(TokenType::True)
        } else if self.spells(from, to, "var") {
            Some(TokenType::Var)
        } else if self.spells(from, to, "while") {
            Some(TokenType::While)
        } else {
            None
        }
    }

    /// Consumes the rest of a word and appends its keyword or identifier token.
    fn identifier(&mut self)
        requires
            old(self).wf(),
            old(self).start + 1 == old(self).current,
        ensures
            final(self).wf(),
            *final(self) == (Scanner {
                current: final(self).current,
                tokens: final(self).tokens,
                ..*old(self)
            }),
            ({
                let src = old(self).source();
                let end = run_end(src, Run::Word, old(self).cursor());
                &&& final(self).cursor() == end
                &&& final(self).tokens@.len() == old(self).tokens@.len() + 1
                &&& final(self).tokens@.drop_last() == old(self).tokens@
                &&& final(self).tokens@.last()@ == (TokenView {
                    token_type: word_kind(src.subrange(old(self).start as int, end)),
                    lexeme: src.subrange(old(self).start as int, end),
                    literal: None,
                    line: old(self).line,
                })
            }),
    {
        let ghost src = self.source();
        while self.is_alphanumeric(self.peek())
            invariant
                self.wf(),
                self.source() == src,
                *self == (Scanner { current: self.current, ..*old(self) }),
                old(self).cursor() <= self.cursor(),
                run_end(src, Run::Word, self.cursor()) == run_end(
                    src,
                    Run::Word,
                    old(self).cursor(),
                ),
            decreases src.len() - self.cursor(),
        {
            self.advance();
        }

        let token_type = match self.keyword(self.start, self.current) {
            Some(kind) => kind,
            None => TokenType::Identifier,
        };
        self.add_token(token_type, None);
    }

    /// Consumes the rest of a number literal and appends its token, with the
    /// value that `parse` reads from its text.
    fn number<P: Fn(&str) -> u64>(&mut self, parse: &P)
        requires
            old(self).wf(),
            old(self).start + 1 == old(self).current,
            is_digit(old(self).source()[old(self).start as int]),
            reads_numbers(*parse),
        ensures
            final(self).wf(),
            *final(self) == (Scanner {
                current: final(self).current,
                tokens: final(self).tokens,
                ..*old(self)
            }),
            ({
                let src = old(self).source();
                let end = number_end(src, old(self).start as int);
                &&& final(self).cursor() == end
                &&& final(self).tokens@.len() == old(self).tokens@.len() + 1
                &&& final(self).tokens@.drop_last() == old(self).tokens@
                &&& token_fits(
                    *parse,
                    final(self).tokens@.last()@,
                    Lexeme {
                        token_type: TokenType::Number,
                        text: src.subrange(old(self).start as int, end),
                        line: old(self).line_number(),
                    },
                )
            }),
    {
        let ghost src = self.source();
        while self.is_digit(self.peek())
            invariant
                self.wf(),
                self.source() == src,
                *self == (Scanner { current: self.current, ..*old(self) }),
                old(self).cursor() <= self.cursor(),
                run_end(src, Run::Digits, self.cursor()) == run_end(
                    src,
                    Run::Digits,
                    old(self).cursor(),
                ),
            decreases src.len() - self.cursor(),
        {
            self.advance();
        }

        // Look for a fractional part.
        let ghost whole = self.cursor();
        if self.peek() == '.' && self.is_digit(self.peek_next()) {
            // Consume the "."
            self.advance();
        }
        // Read the rest of the digits
        while self.is_digit(self.peek())
            invariant
                self.wf(),
                self.source() == src,
                *self == (Scanner { current: self.current, ..*old(self) }),
                whole <= self.cursor(),
                run_end(src, Run::Digits, self.cursor()) == number_end(src, old(self).start as int),
            decreases src.len() - self.cursor(),
        {
            self.advance();
        }
        let text = self.text(self.start, self.current);
        proof {
            lemma_number_text(src, self.start as int);
        }
        let as_num = parse(text.as_str());
        self.add_token(TokenType::Number, Some(Literal::Number(as_num)));
    }

    /// Consumes the rest of a string literal. Appends its token, whose value
    /// is the text between the quotes, or records that no quote closes it.
    fn string(&mut self)
        requires
            old(self).wf(),
            old(self).start + 1 == old(self).current,
        ensures
            final(self).wf(),
            final(self).source() == old(self).source(),
            ({
                let src = old(self).source();
                let close = run_end(src, Run::Text, old(self).cursor());
                let last_line = old(self).line + newlines(src, old(self).cursor(), close);
                &&& final(self).line_number() == last_line
                &&& if close >= src.len() {
                    &&& final(self).cursor() == close
                    &&& final(self).tokens == old(self).tokens
                    &&& final(self).reporter@ == old(self).reporter@.push(
                        report_text(last_line as nat, ""@, "Unterminated string"@),
                    )
                } else {
                    &&& final(self).cursor() == close + 1
                    &&& final(self).reporter == old(self).reporter
                    &&& final(self).tokens@.len() == old(self).tokens@.len() + 1
                    &&& final(self).tokens@.drop_last() == old(self).tokens@
                    &&& final(self).tokens@.last()@ == (TokenView {
                        token_type: TokenType::String,
                        lexeme: src.subrange(old(self).start as int, close + 1),
                        literal: Some(
                            LiteralView::String(src.subrange(old(self).cursor(), close)),
                        ),
                        line: last_line as usize,
                    })
                }
            }),
    {
        let ghost src = self.source();
        while self.peek() != '"' && !self.is_at_end()
            invariant
                self.wf(),
                self.source() == src,
                *self == (Scanner { current: self.current, line: self.line, ..*old(self) }),
                old(self).cursor() <= self.cursor(),
                run_end(src, Run::Text, self.cursor()) == run_end(
                    src,
                    Run::Text,
                    old(self).cursor(),
                ),
                self.line == old(self).line + newlines(src, old(self).cursor(), self.cursor()),
            decreases src.len() - self.cursor(),
        {
            // Our strings are multiline
            let c = self.advance();
            if c == '\n' {
                self.line += 1;
            }
        }

        if self.is_at_end() {
            self.reporter.report(self.line, "", "Unterminated string");
            return ;
        }
        // The closing ".

        self.advance();

        // Trim the surrounding quotes.
        let value = self.text(self.start + 1, self.current - 1);
        self.add_token(TokenType::String, Some(Literal::String(value)));
    }

    /// Only consume a character in the source if it matches the `expected` character.
    fn match_char(&mut self, expected: char) -> (matched: bool)
        requires
            old(self).wf(),
            expected != NULL_C,
        ensures
            final(self).wf(),
            matched == (peek_at(old(self).source(), old(self).cursor()) == expected),
            *final(self) == (Scanner {
                current: if matched {
                    (old(self).current + 1) as usize
                } else {
                    old(self).current
                },
                ..*old(self)
            }),
    {
        if self.is_at_end() || self.nth(self.current) != expected {
            false
        } else {
            self.current += 1;
            true
        }
    }

    /// Get the next character in the source without consuming it.
    fn peek(&self) -> (c: char)
        requires
            self.wf(),
        ensures
            c == peek_at(self.source(), self.cursor()),
    {
        self.nth(self.current)
    }

    /// Get the character after the next character in the source without consuming it.
    fn peek_next(&self) -> (c: char)
        requires
            self.wf(),
        ensures
            c == peek_at(self.source(), self.cursor() + 1),
    {
        if self.current + 1 >= self.chars.len() {
            NULL_C
        } else {
            self.nth(self.current + 1)
        }
    }

    fn nth(&self, n: usize) -> (c: char)
        requires
            self.wf(),
            n <= self.source().len(),
        ensures
            c == peek_at(self.source(), n as int),
    {
        self.chars[n]
    }

    fn is_at_end(&self) -> (r: bool)
        requires
            self.wf(),
        ensures
            r == (self.cursor() >= self.source().len()),
    {
        self.current + 1 >= self.chars.len()
    }

    /// Consume the next character in the source.
    fn advance(&mut self) -> (c: char)
        requires
            old(self).wf(),
            old(self).cursor() < old(self).source().len(),
        ensures
            final(self).wf(),
            c == old(self).source()[old(self).cursor()],
            *final(self) == (Scanner { current: (old(self).current + 1) as usize, ..*old(self) }),
            final(self).line <= old(self).current + 1,
    {
        let c = self.chars[self.current];
        self.current += 1;
        c
    }

    /// The source from `from` up to `to`.
    fn text(&self, from: usize, to: usize) -> (text: String)
        requires
            self.wf(),
            from <= to <= self.source().len(),
        ensures
            text@ == self.source().subrange(from as int, to as int),
    {
        let mut text = String::new();
        let mut i: usize = from;
        while i < to
            invariant
                self.wf(),
                from <= i <= to <= self.source().len(),
                text@ == self.source().subrange(from as int, i as int),
            decreases to - i,
        {
            text.push(self.chars[i]);
            assert(self.source().subrange(from as int, i + 1) =~= self.source().subrange(
                from as int,
                i as int,
            ).push(self.source()[i as int]));
            i += 1;
        }
        text
    }

    fn add_char_token(&mut self, t: TokenType)
        requires
            old(self).wf(),
        ensures
            final(self).wf(),
            *final(self) == (Scanner { tokens: final(self).tokens, ..*old(self) }),
            final(self).tokens@.len() == old(self).tokens@.len() + 1,
            final(self).tokens@.drop_last() == old(self).tokens@,
            final(self).tokens@.last()@ == (TokenView {
                token_type: t,
                lexeme: old(self).source().subrange(old(self).start as int, old(self).cursor()),
                literal: None,
                line: old(self).line,
            }),
    {
        self.add_token(t, None)
    }

    /// Appends a token of kind `t` whose text is what was consumed since the
    /// step began.
    fn add_token(&mut self, t: TokenType, literal: Option<Literal>)
        requires
            old(self).wf(),
        ensures
            final(self).wf(),
            *final(self) == (Scanner { tokens: final(self).tokens, ..*old(self) }),
            final(self).tokens@.len() == old(self).tokens@.len() + 1,
            final(self).tokens@.drop_last() == old(self).tokens@,
            final(self).tokens@.last()@ == (TokenView {
                token_type: t,
                lexeme: old(self).source().subrange(old(self).start as int, old(self).cursor()),
                literal: crate::lexer::option_view(literal),
                line: old(self).line,
            }),
    {
        let text = self.text(self.start, self.current);
        let token = Token::new(t, text.as_str(), literal, self.line);
        self.tokens.push(token);
        assert(self.tokens@.drop_last() =~= old(self).tokens@);
    }
}

} // verus!
