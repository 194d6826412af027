//! A line-oriented interpreter for a small Forth-like language.
//!
//! A line of text goes through three stages that share one [`vm::VM`]:
//! the scanner classifies its tokens, the parser resolves them into
//! operations (pushing literal numbers directly onto the data stack), and
//! the interpreter executes the operations against the data stack.

pub mod arguments;
pub mod compiler;
pub mod vm;
