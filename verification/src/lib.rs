//! An integer calculator: a line of text is parsed into an expression tree,
//! the tree is reduced to a signed 64-bit value, and the value is rendered
//! in decimal, hexadecimal or binary.

pub mod ast;
pub mod error;
pub mod lexer;
pub mod grammar;
pub mod parser;
pub mod arith;
pub mod format;
pub mod evaluator;
pub mod reply;
pub mod laws;
