//! A scanner, a recursive-descent parser and a tree-walking evaluator for
//! Lox expressions, with the diagnostics that run through all three.

pub mod ast;
pub mod interpreter;
pub mod lexer;
pub mod lox;
pub mod number;
pub mod parser;
pub mod reporter;
pub mod scanner;
