//! Front-end errors.
use vstd::prelude::*;

verus! {

/// A front-end error, from any stage between source text and prototypes.
///
/// Positions are 1-based line and column numbers.
#[derive(Debug)]
pub enum CompileError {
    /// A lexical error (a character no token starts with, a malformed number).
    Lex { line: usize, col: usize, msg: String },
    /// A syntax error: another token was expected.
    Parse { line: usize, col: usize, expected: String, found: String },
    /// Syntax or semantics this front end does not support (such as a global
    /// `function` definition).
    Unsupported { line: usize, col: usize, feature: String },
    /// An inconsistency found while generating code.
    Codegen { line: usize, col: usize, msg: String },
    /// Reading the script failed.
    Io(String),
}

} // verus!
