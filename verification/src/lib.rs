//! A small expression-oriented language: lexical analysis and
//! precedence-climbing recursive-descent parsing.
//!
//! The pipeline is `Lexer` (characters to tokens) feeding `Parser`
//! (tokens to an abstract syntax tree plus diagnostics). Malformed
//! input never aborts a parse: the parser records a `Diagnostic`,
//! resynchronizes, and keeps going.

pub mod ast;
pub mod grammar;
pub mod lexer;
pub mod parser;
pub mod token;

use vstd::prelude::*;

verus! {

} // verus!
