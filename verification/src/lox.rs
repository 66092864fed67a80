//! One run from source text to a printed tree or a value.

use crate::ast::{is_printed, AstPrinter, Expression};
use crate::interpreter::{
    is_evaluation, recorded, with_mismatch, Interpreter, Outcome, TypeMismatch, TypeMismatchView,
};
use crate::lexer::{option_view, token_views, Literal, Token, TokenType, TokenView};
use crate::number::Arithmetic;
use crate::parser::{parse_expression, parsed_or_placeholder, well_terminated, Parser};
use crate::reporter::{Reporter, SharedReporter};
use crate::scanner::{
    lemma_scan_ends_with_marker, reads_numbers, scan, tokens_fit, Scanner,
};
use vstd::prelude::*;

verus! {

pub struct Lox {
    pub reporter: SharedReporter,
    pub tokens: Vec<Token>,
    /// The type mismatches that evaluations ran into, oldest first. They
    /// are kept apart from the lexical and syntax errors in `reporter`.
    pub diagnostics: Vec<TypeMismatch>,
}

impl Lox {
    /// The tokens of the source.
    pub open spec fn stream(&self) -> Seq<TokenView> {
        token_views(self.tokens@)
    }

    /// The type mismatches recorded so far.
    pub open spec fn mismatches(&self) -> Seq<TypeMismatchView> {
        self.diagnostics@.map_values(|m: TypeMismatch| m@)
    }

    /// What holds of every run: its tokens end in the end-of-input token.
    pub open spec fn wf(&self) -> bool {
        well_terminated(self.stream())
    }

    /// Scans `source`: the run holds its tokens and its lexical errors.
    pub fn new<P: Fn(&str) -> u64>(source: &str, parse: &P) -> (lox: Self)
        requires
            reads_numbers(*parse),
        ensures
            lox.wf(),
            tokens_fit(*parse, lox.tokens@, scan(source@).tokens),
            lox.reporter@ == scan(source@).errors,
            lox.mismatches() == Seq::<TypeMismatchView>::empty(),
    {
        let reporter = Reporter::shared();
        let mut scanner = Scanner::new(source, reporter);
        scanner.scan_tokens(parse);
        let lox = Self {
            reporter: scanner.reporter,
            tokens: scanner.tokens,
            diagnostics: Vec::new(),
        };
        proof {
            lemma_scan_ends_with_marker(source@, 0, 1);
            assert(lox.tokens@.subrange(0, lox.tokens@.len() as int) =~= lox.tokens@);
            assert(Seq::<Seq<char>>::empty() + scan(source@).errors =~= scan(source@).errors);
            assert(lox.mismatches() =~= Seq::<TypeMismatchView>::empty());
            let last = lox.tokens@.len() - 1;
            assert(lox.stream().last() == lox.tokens@[last]@);
        }
        lox
    }

    /// Parses the tokens, with the run's reporter, and hands the tree back.
    fn parse(&mut self) -> (expr: Expression)
        requires
            old(self).wf(),
        ensures
            final(self).tokens == old(self).tokens,
            final(self).diagnostics == old(self).diagnostics,
            expr@ == parsed_or_placeholder(parse_expression(old(self).stream(), 0)),
            final(self).reporter@ == old(self).reporter@ + parse_expression(
                old(self).stream(),
                0,
            ).errors,
    {
        let mut reporter = Reporter::new();
        core::mem::swap(&mut self.reporter, &mut reporter);
        let mut parser = Parser::new(self.tokens.as_slice(), reporter);
        let expr = parser.parse();
        self.reporter = parser.reporter;
        expr
    }

    /// Parses the tokens and prints the tree; nothing if any lexical or
    /// syntax error has been recorded. Numbers are printed by `number`.
    pub fn run<R: Fn(u64) -> String>(&mut self, number: &R) -> (text: Option<String>)
        requires
            old(self).wf(),
            forall|bits: u64| call_requires(number, (bits,)),
        ensures
            final(self).tokens == old(self).tokens,
            final(self).diagnostics == old(self).diagnostics,
            final(self).reporter@ == old(self).reporter@ + parse_expression(
                old(self).stream(),
                0,
            ).errors,
            text is None == (final(self).reporter@.len() > 0),
            text matches Some(t) ==> is_printed(
                *number,
                parsed_or_placeholder(parse_expression(old(self).stream(), 0)),
                t@,
            ),
    {
        let expr = self.parse();
        if self.had_error() {
            None
        } else {
            let printer = AstPrinter::new();
            Some(printer.print(&expr, number))
        }
    }

    /// Parses the tokens and evaluates the tree; nothing if any lexical
    /// or syntax error has been recorded. The arithmetic is done by `arith`.
    pub fn evaluate<A: Fn(Arithmetic, u64, u64) -> u64>(&mut self, arith: &A) -> (value: Option<
        Literal,
    >)
        requires
            old(self).wf(),
            forall|operation: Arithmetic, x: u64, y: u64| call_requires(arith, (operation, x, y)),
        ensures
            final(self).tokens == old(self).tokens,
            final(self).reporter@ == old(self).reporter@ + parse_expression(
                old(self).stream(),
                0,
            ).errors,
            final(self).mismatches() == with_mismatch(
                old(self).mismatches(),
                recorded(old(self).mismatches(), final(self).mismatches()),
            ),
            final(self).reporter@.len() > 0 ==> value is None && final(self).mismatches() == old(
                self,
            ).mismatches(),
            final(self).reporter@.len() == 0 ==> is_evaluation(
                *arith,
                parsed_or_placeholder(parse_expression(old(self).stream(), 0)),
                Outcome {
                    value: option_view(value),
                    mismatch: recorded(old(self).mismatches(), final(self).mismatches()),
                },
            ),
    {
        let expr = self.parse();
        if !self.had_error() {
            let mut interpreter = Interpreter::new();
            core::mem::swap(&mut self.diagnostics, &mut interpreter.diagnostics);
            let value = interpreter.evaluate(&expr, arith);
            self.diagnostics = interpreter.diagnostics;
            return value;
        }
        None
    }

    /// Whether any lexical or syntax error has been recorded.
    pub fn had_error(&self) -> (r: bool)
        ensures
            r == (self.reporter@.len() > 0),
    {
        self.reporter.had_error()
    }
}

} // verus!
