//! The list of diagnostics that the scanner and the parser fill.

use crate::lexer::{Token, TokenType, TokenView};
use vstd::prelude::*;
use vstd::string::StringExecFns;

verus! {

/// `String::push` of the standard library: the string afterwards is the
/// string before with `c` appended, and nothing else.
pub assume_specification[ std::string::String::push ](text: &mut std::string::String, c: char)
    ensures
        final(text)@ == old(text)@.push(c),
;

/// The character for a digit below ten.
pub open spec fn digit_char(d: nat) -> char
    recommends
        d < 10,
{
    if d == 0 {
        '0'
    } else if d == 1 {
        '1'
    } else if d == 2 {
        '2'
    } else if d == 3 {
        '3'
    } else if d == 4 {
        '4'
    } else if d == 5 {
        '5'
    } else if d == 6 {
        '6'
    } else if d == 7 {
        '7'
    } else if d == 8 {
        '8'
    } else {
        '9'
    }
}

/// A number in decimal, without leading zeros; zero is `0`.
pub open spec fn decimal(n: nat) -> Seq<char>
    decreases n,
{
    if n < 10 {
        seq![digit_char(n)]
    } else {
        decimal(n / 10).push(digit_char(n % 10))
    }
}

/// The text of a diagnostic: `[line N] Error<location>: <message>`.
pub open spec fn report_text(line: nat, location: Seq<char>, message: Seq<char>) -> Seq<char> {
    "[line "@ + decimal(line) + "] Error"@ + location + ": "@ + message
}

/// Where a diagnostic about a token points: the end of input, or the token's text in quotes.
pub open spec fn token_location(token: TokenView) -> Seq<char> {
    if token.token_type == TokenType::Eof {
        " at the end"@
    } else {
        " at '"@ + token.lexeme + "'"@
    }
}

/// The views of a run of messages, in order.
pub open spec fn message_views(messages: Seq<String>) -> Seq<Seq<char>> {
    messages.map_values(|m: String| m@)
}

fn digit(d: usize) -> (c: char)
    requires
        d < 10,
    ensures
        c == digit_char(d as nat),
{
    if d == 0 {
        '0'
    } else if d == 1 {
        '1'
    } else if d == 2 {
        '2'
    } else if d == 3 {
        '3'
    } else if d == 4 {
        '4'
    } else if d == 5 {
        '5'
    } else if d == 6 {
        '6'
    } else if d == 7 {
        '7'
    } else if d == 8 {
        '8'
    } else {
        '9'
    }
}

/// Appends `n` in decimal to `text`.
pub fn push_decimal(text: &mut String, n: usize)
    ensures
        final(text)@ == old(text)@ + decimal(n as nat),
    decreases n,
{
    if n >= 10 {
        push_decimal(text, n / 10);
    }
    text.push(digit(n % 10));
    proof {
        if n >= 10 {
            assert(old(text)@ + decimal(n as nat) =~= (old(text)@ + decimal(n as nat / 10)).push(
                digit_char(n as nat % 10),
            ));
        } else {
            assert(old(text)@ + decimal(n as nat) =~= old(text)@.push(digit_char(n as nat)));
        }
    }
}

pub struct Reporter {
    pub errors: Vec<String>,
}

/// The reporter of one run, as it passes from the scanner to the parser.
pub type SharedReporter = Reporter;

impl View for Reporter {
    type V = Seq<Seq<char>>;

    /// The messages recorded so far, oldest first.
    open spec fn view(&self) -> Seq<Seq<char>> {
        message_views(self.errors@)
    }
}

impl Default for Reporter {
    fn default() -> (reporter: Self)
        ensures
            reporter@ == Seq::<Seq<char>>::empty(),
    {
        Self::new()
    }
}

impl Reporter {
    pub fn new() -> (reporter: Self)
        ensures
            reporter@ == Seq::<Seq<char>>::empty(),
    {
        let reporter = Self { errors: Vec::new() };
        assert(reporter@ =~= Seq::<Seq<char>>::empty());
        reporter
    }

    /// An empty reporter for one run: the scanner fills it, hands it on to
    /// the parser, and the caller reads it when both are done.
    pub fn shared() -> (reporter: SharedReporter)
        ensures
            reporter@ == Seq::<Seq<char>>::empty(),
    {
        Self::new()
    }

    /// Whether anything was recorded.
    pub fn had_error(&self) -> (r: bool)
        ensures
            r == (self@.len() > 0),
    {
        self.errors.len() > 0
    }

    /// Records `message` as an error at `token`.
    pub fn error(&mut self, token: Token, message: &str)
        ensures
            final(self)@ == old(self)@.push(
                report_text(token.line as nat, token_location(token@), message@),
            ),
    {
        if token.token_type == TokenType::Eof {
            self.report(token.line, " at the end", message)
        } else {
            let mut location = String::from_str(" at '");
            location.append(token.lexeme.as_str());
            location.append("'");
            self.report(token.line, location.as_str(), message)
        }
    }

    /// Records `[line N] Error<location>: <message>`.
    pub fn report(&mut self, line: usize, location: &str, message: &str)
        ensures
            final(self)@ == old(self)@.push(report_text(line as nat, location@, message@)),
    {
        let mut error = String::from_str("[line ");
        push_decimal(&mut error, line);
        error.append("] Error");
        error.append(location);
        error.append(": ");
        error.append(message);
        self.errors.push(error);
        assert(self@ =~= old(self)@.push(report_text(line as nat, location@, message@)));
    }
}

} // verus!
