//! Compiler: scanning and resolving a line of text.

pub mod parser;
pub mod scanner;

use vstd::prelude::*;

verus! {

/// Errors raised while scanning or resolving a line.
#[derive(Clone, Debug, PartialEq)]
pub enum CompilerError {
    /// The line holds a character outside ASCII.
    NonAscii,
    /// The line does not end with a non-graphic character (such as a newline).
    MissingTrailingWhitespace,
    /// A token named a word that the dictionary does not hold.
    UndefinedWord(String),
}

} // verus!
