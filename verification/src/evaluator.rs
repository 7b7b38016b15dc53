//! The evaluator: reduces an expression tree to one value, operands first,
//! and renders the value of the root.

use vstd::prelude::*;
use crate::arith::{apply, apply_op};
use crate::ast::{BinaryOp, Calculation, Expr};
use crate::error::EvalError;
use crate::format::{render, rendering};

verus! {

/// The value of a line, and that value rendered as the line asked.
#[derive(Debug, PartialEq, Eq)]
pub struct EvalResult {
    pub value: i64,
    pub text: String,
}

/// The value of `expr`: the left operand is reduced first, then the right
/// one, then the operator is applied; the first failure is the failure of
/// the whole.
pub open spec fn value_of(expr: Expr) -> Result<i64, EvalError>
    decreases expr,
{
    match expr {
        Expr::Integer(literal) => Ok(literal.value),
        Expr::BinaryOp(node) => match value_of(*node.lhs) {
            Ok(a) => match value_of(*node.rhs) {
                Ok(b) => apply(node.op, a, b),
                Err(e) => Err(e),
            },
            Err(e) => Err(e),
        },
    }
}

/// The value of `calc` and its rendering, or why it has none.
pub open spec fn outcome(calc: Calculation) -> Result<(i64, Seq<char>), EvalError> {
    match value_of(calc.expr) {
        Ok(v) => Ok((v, rendering(v, calc.formatter))),
        Err(e) => Err(e),
    }
}

/// What is shown for a value rendered as `text`.
pub open spec fn output_line(text: Seq<char>) -> Seq<char> {
    seq![' ', '=', ' '] + text
}

/// Reduces `expr` to its value.
pub fn eval_expr(expr: Expr) -> (r: Result<i64, EvalError>)
    ensures
        r == value_of(expr),
    decreases expr,
{
    match expr {
        Expr::Integer(literal) => Ok(literal.value),
        Expr::BinaryOp(BinaryOp { lhs, rhs, op }) => {
            let a = match eval_expr(*lhs) {
                Ok(a) => a,
                Err(e) => {
                    return Err(e);
                },
            };
            let b = match eval_expr(*rhs) {
                Ok(b) => b,
                Err(e) => {
                    return Err(e);
                },
            };
            apply_op(op, a, b)
        },
    }
}

/// Evaluates `calc`: the value of its expression, and that value rendered
/// as its display directive asks.
pub fn eval(calc: Calculation) -> (r: Result<EvalResult, EvalError>)
    ensures
        match outcome(calc) {
            Ok((value, text)) => r matches Ok(found) && found.value == value && found.text@
                == text,
            Err(e) => r == Err::<EvalResult, EvalError>(e),
        },
{
    let Calculation { expr, formatter } = calc;
    match eval_expr(expr) {
        Ok(value) => Ok(EvalResult { value, text: render(value, formatter) }),
        Err(e) => Err(e),
    }
}

impl EvalResult {
    /// The line to show for this result: ` = ` and the rendered value.
    pub fn output(&self) -> (line: String)
        ensures
            line@ == output_line(self.text@),
    {
        proof {
            reveal_strlit(" = ");
        }
        let mut line = String::from_str(" = ");
        line.append(self.text.as_str());
        line
    }
}

} // verus!
