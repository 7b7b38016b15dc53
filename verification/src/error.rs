//! The ways in which a line can fail.

use vstd::prelude::*;

verus! {

/// Why a line could not be turned into an expression tree.
#[derive(Debug, PartialEq, Eq, Clone, Copy)]
pub enum ParseError {
    /// The text does not follow the grammar.
    SyntaxError,
    /// An integer literal lies outside the signed 64-bit range.
    LiteralOverflow,
}

/// Why an expression tree has no value.
#[derive(Debug, PartialEq, Eq, Clone, Copy)]
pub enum EvalError {
    /// A result lies outside the signed 64-bit range.
    LiteralOverflow,
    /// The right operand of `/` is zero.
    DivisionByZero,
    /// The right operand of `^` is negative.
    NegativeExponent,
}

impl ParseError {
    /// What is shown for a line that failed so.
    pub open spec fn spec_message(&self) -> Seq<char> {
        match *self {
            ParseError::SyntaxError => " Syntax error"@,
            ParseError::LiteralOverflow => " Overflow"@,
        }
    }

    pub fn message(&self) -> (text: &'static str)
        ensures
            text@ == self.spec_message(),
    {
        match self {
            ParseError::SyntaxError => " Syntax error",
            ParseError::LiteralOverflow => " Overflow",
        }
    }
}

impl EvalError {
    /// What is shown for a line that failed so.
    pub open spec fn spec_message(&self) -> Seq<char> {
        match *self {
            EvalError::LiteralOverflow => " Overflow"@,
            EvalError::DivisionByZero => " Division by zero"@,
            EvalError::NegativeExponent => " Negative exponent"@,
        }
    }

    pub fn message(&self) -> (text: &'static str)
        ensures
            text@ == self.spec_message(),
    {
        match self {
            EvalError::LiteralOverflow => " Overflow",
            EvalError::DivisionByZero => " Division by zero",
            EvalError::NegativeExponent => " Negative exponent",
        }
    }
}

} // verus!
