//! The five operators on signed 64-bit integers, each failing rather than
//! wrapping when the result does not fit.

use vstd::prelude::*;
use crate::ast::Op;
use crate::error::EvalError;

verus! {

/// Whether `v` is a signed 64-bit value.
pub open spec fn in_range(v: int) -> bool {
    i64::MIN <= v <= i64::MAX
}

/// `v` as a result: itself if it fits, an overflow if not.
pub open spec fn checked(v: int) -> Result<i64, EvalError> {
    if in_range(v) {
        Ok(v as i64)
    } else {
        Err(EvalError::LiteralOverflow)
    }
}

/// The distance of `v` from zero.
pub open spec fn magnitude(v: int) -> int {
    if v < 0 {
        -v
    } else {
        v
    }
}

/// The quotient of `a` by a non-zero `b`, rounded towards zero.
pub open spec fn quotient(a: int, b: int) -> int {
    if (a < 0) == (b < 0) {
        magnitude(a) / magnitude(b)
    } else {
        -(magnitude(a) / magnitude(b))
    }
}

/// `b` multiplied by itself `e` times; one where `e` is zero.
pub open spec fn pow(b: int, e: nat) -> int
    decreases e,
{
    if e == 0 {
        1
    } else {
        b * pow(b, (e - 1) as nat)
    }
}

/// What `op` makes of `a` and `b`.
pub open spec fn apply(op: Op, a: i64, b: i64) -> Result<i64, EvalError> {
    match op {
        Op::Add => checked(a + b),
        Op::Sub => checked(a - b),
        Op::Mul => checked(a * b),
        Op::Div => if b == 0 {
            Err(EvalError::DivisionByZero)
        } else {
            checked(quotient(a as int, b as int))
        },
        Op::Pow => if b < 0 {
            Err(EvalError::NegativeExponent)
        } else {
            checked(pow(a as int, b as nat))
        },
    }
}

/// One to any power is one.
proof fn lemma_pow_one(e: nat)
    ensures
        pow(1, e) == 1,
    decreases e,
{
    if e > 0 {
        lemma_pow_one((e - 1) as nat);
    }
}

/// A power of minus one is one for an even exponent and minus one for an odd one.
proof fn lemma_pow_minus_one(e: nat)
    ensures
        pow(-1, e) == if e % 2 == 0 {
            1int
        } else {
            -1int
        },
    decreases e,
{
    if e > 0 {
        lemma_pow_minus_one((e - 1) as nat);
    }
}

/// Each further factor of a base of magnitude two or more at least doubles the magnitude.
proof fn lemma_pow_doubles(b: int, k: nat, n: nat)
    requires
        magnitude(b) >= 2,
        k < n,
    ensures
        magnitude(pow(b, n)) >= 2 * magnitude(pow(b, k)),
    decreases n,
{
    let prev = pow(b, (n - 1) as nat);
    assert(magnitude(b * prev) >= 2 * magnitude(prev)) by (nonlinear_arith)
        requires
            magnitude(b) >= 2,
    ;
    if n - 1 > k {
        lemma_pow_doubles(b, k, (n - 1) as nat);
    }
}

/// Once a power of a base of magnitude two or more has left the 64-bit range,
/// every later power lies outside it too.
proof fn lemma_pow_stays_out(b: int, k: nat, n: nat)
    requires
        magnitude(b) >= 2,
        k <= n,
        !in_range(pow(b, k)),
    ensures
        !in_range(pow(b, n)),
{
    if k < n {
        lemma_pow_doubles(b, k, n);
    }
}

/// `base` to the power of `exponent`, which must not be negative.
pub fn checked_pow(base: i64, exponent: i64) -> (r: Result<i64, EvalError>)
    ensures
        r == apply(Op::Pow, base, exponent),
{
    if exponent < 0 {
        return Err(EvalError::NegativeExponent);
    }
    let ghost e = exponent as nat;
    if exponent == 0 {
        return Ok(1);
    }
    if base == 0 {
        return Ok(0);
    }
    if base == 1 {
        proof {
            lemma_pow_one(e);
        }
        return Ok(1);
    }
    if base == -1 {
        proof {
            lemma_pow_minus_one(e);
        }
        return Ok(if exponent % 2 == 0 {
            1
        } else {
            -1
        });
    }
    // From here the magnitude doubles at least with every factor, so the loop
    // leaves the range, and ends, within 64 turns.
    let mut acc: i64 = 1;
    let mut k: i64 = 0;
    while k < exponent
        invariant
            0 <= k <= exponent,
            e == exponent as nat,
            acc == pow(base as int, k as nat),
            magnitude(base as int) >= 2,
        decreases exponent - k,
    {
        proof {
            assert(base * acc == acc * base) by (nonlinear_arith);
        }
        acc = match acc.checked_mul(base) {
            Some(product) => product,
            None => {
                proof {
                    lemma_pow_stays_out(base as int, (k + 1) as nat, e);
                }
                return Err(EvalError::LiteralOverflow);
            },
        };
        k += 1;
    }
    Ok(acc)
}

/// Applies `op` to `a` and `b`.
pub fn apply_op(op: Op, a: i64, b: i64) -> (r: Result<i64, EvalError>)
    ensures
        r == apply(op, a, b),
{
    match op {
        Op::Add => match a.checked_add(b) {
            Some(v) => Ok(v),
            None => Err(EvalError::LiteralOverflow),
        },
        Op::Sub => match a.checked_sub(b) {
            Some(v) => Ok(v),
            None => Err(EvalError::LiteralOverflow),
        },
        Op::Mul => match a.checked_mul(b) {
            Some(v) => Ok(v),
            None => Err(EvalError::LiteralOverflow),
        },
        Op::Div => if b == 0 {
            Err(EvalError::DivisionByZero)
        } else {
            match a.checked_div(b) {
                Some(v) => Ok(v),
                None => Err(EvalError::LiteralOverflow),
            }
        },
        Op::Pow => checked_pow(a, b),
    }
}

} // verus!
