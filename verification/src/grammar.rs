//! The grammar of a line, as functions from a text and a position to the
//! expression that starts there and the position where it ends.
//!
//! ```text
//! calculation := sum formatter?
//! sum         := term (('+' | '-') term)*
//! term        := power (('*' | '/') power)*
//! power       := primary ('^' power)?
//! primary     := literal | '(' sum ')'
//! formatter   := '#x' | '#b'
//! ```
//!
//! Blanks may stand before every token and at the end of the line. The first
//! failure met from left to right is the failure of the line.

use vstd::prelude::*;
use crate::ast::{binary, integer, Calculation, Expr, Formatter, Op};
use crate::error::ParseError;
use crate::lexer::{lemma_literal_advances, lemma_skip_spaces, literal_at, pair_at, skip_spaces};

verus! {

/// What a rule yields at a position: the expression and the position after it.
pub type Parsed = Result<(Expr, int), ParseError>;

/// The operator spelled at `i`, if any.
pub open spec fn op_at(s: Seq<char>, i: int) -> Option<Op> {
    if 0 <= i < s.len() {
        Op::of_char(s[i])
    } else {
        None
    }
}

/// Whether `to` lies after `from` and inside the text. Every rule that
/// succeeds ends at such a position (`lemma_rules_advance`); the rules test it
/// only so that their recursion is seen to end.
pub open spec fn advances(s: Seq<char>, from: int, to: int) -> bool {
    from < to <= s.len()
}

/// `primary := literal | '(' sum ')'`
pub open spec fn primary(s: Seq<char>, i: int) -> Parsed
    decreases s.len() - i, 0nat,
    when 0 <= i <= s.len()
{
    let j = skip_spaces(s, i);
    if i <= j < s.len() && s[j] == '(' {
        match sum(s, j + 1) {
            Ok((inner, k)) => {
                let close = skip_spaces(s, k);
                if 0 <= close < s.len() && s[close] == ')' {
                    Ok((inner, close + 1))
                } else {
                    Err(ParseError::SyntaxError)
                }
            },
            Err(e) => Err(e),
        }
    } else {
        match literal_at(s, j) {
            Ok((literal, k)) => Ok((integer(literal.value), k)),
            Err(e) => Err(e),
        }
    }
}

/// What follows the base of a power: `('^' power)?`
pub open spec fn power_tail(s: Seq<char>, base: Expr, i: int) -> Parsed
    decreases s.len() - i, 1nat,
    when 0 <= i <= s.len()
{
    let j = skip_spaces(s, i);
    if i <= j && op_at(s, j) == Some(Op::Pow) {
        match power(s, j + 1) {
            Ok((exponent, k)) => Ok((binary(base, Op::Pow, exponent), k)),
            Err(e) => Err(e),
        }
    } else {
        Ok((base, i))
    }
}

/// `power := primary ('^' power)?`
pub open spec fn power(s: Seq<char>, i: int) -> Parsed
    decreases s.len() - i, 2nat,
    when 0 <= i <= s.len()
{
    match primary(s, i) {
        Ok((base, k)) => if advances(s, i, k) {
            power_tail(s, base, k)
        } else {
            Err(ParseError::SyntaxError)
        },
        Err(e) => Err(e),
    }
}

/// What follows the first factor of a term: `(('*' | '/') power)*`, grouped to the left.
pub open spec fn term_tail(s: Seq<char>, lhs: Expr, i: int) -> Parsed
    decreases s.len() - i, 3nat,
    when 0 <= i <= s.len()
{
    let j = skip_spaces(s, i);
    match op_at(s, j) {
        Some(op) => if i <= j && (op == Op::Mul || op == Op::Div) {
            match power(s, j + 1) {
                Ok((rhs, k)) => if advances(s, j, k) {
                    term_tail(s, binary(lhs, op, rhs), k)
                } else {
                    Err(ParseError::SyntaxError)
                },
                Err(e) => Err(e),
            }
        } else {
            Ok((lhs, i))
        },
        None => Ok((lhs, i)),
    }
}

/// `term := power (('*' | '/') power)*`
pub open spec fn term(s: Seq<char>, i: int) -> Parsed
    decreases s.len() - i, 4nat,
    when 0 <= i <= s.len()
{
    match power(s, i) {
        Ok((lhs, k)) => if advances(s, i, k) {
            term_tail(s, lhs, k)
        } else {
            Err(ParseError::SyntaxError)
        },
        Err(e) => Err(e),
    }
}

/// What follows the first term of a sum: `(('+' | '-') term)*`, grouped to the left.
pub open spec fn sum_tail(s: Seq<char>, lhs: Expr, i: int) -> Parsed
    decreases s.len() - i, 5nat,
    when 0 <= i <= s.len()
{
    let j = skip_spaces(s, i);
    match op_at(s, j) {
        Some(op) => if i <= j && (op == Op::Add || op == Op::Sub) {
            match term(s, j + 1) {
                Ok((rhs, k)) => if advances(s, j, k) {
                    sum_tail(s, binary(lhs, op, rhs), k)
                } else {
                    Err(ParseError::SyntaxError)
                },
                Err(e) => Err(e),
            }
        } else {
            Ok((lhs, i))
        },
        None => Ok((lhs, i)),
    }
}

/// `sum := term (('+' | '-') term)*`
pub open spec fn sum(s: Seq<char>, i: int) -> Parsed
    decreases s.len() - i, 6nat,
    when 0 <= i <= s.len()
{
    match term(s, i) {
        Ok((lhs, k)) => if advances(s, i, k) {
            sum_tail(s, lhs, k)
        } else {
            Err(ParseError::SyntaxError)
        },
        Err(e) => Err(e),
    }
}

/// What may stand between the expression and the end of the line: nothing,
/// `#x` or `#b`, with blanks around it.
pub open spec fn formatter_at(s: Seq<char>, i: int) -> Result<Option<Formatter>, ParseError> {
    let j = skip_spaces(s, i);
    if j >= s.len() {
        Ok(None)
    } else if pair_at(s, j, '#', 'x') && skip_spaces(s, j + 2) >= s.len() {
        Ok(Some(Formatter::Hex))
    } else if pair_at(s, j, '#', 'b') && skip_spaces(s, j + 2) >= s.len() {
        Ok(Some(Formatter::Binary))
    } else {
        Err(ParseError::SyntaxError)
    }
}

/// `calculation := sum formatter?`, which must use up the whole line.
pub open spec fn calculation(s: Seq<char>) -> Result<Calculation, ParseError> {
    match sum(s, 0) {
        Ok((expr, i)) => match formatter_at(s, i) {
            Ok(formatter) => Ok(Calculation { expr, formatter }),
            Err(e) => Err(e),
        },
        Err(e) => Err(e),
    }
}

/// The rule that parses operators of strength `min_precedence` and above:
/// a sum for the loosest, then a term, a power, and a primary beyond the tightest.
pub open spec fn rule(s: Seq<char>, i: int, min_precedence: u8) -> Parsed {
    if min_precedence <= 1 {
        sum(s, i)
    } else if min_precedence == 2 {
        term(s, i)
    } else if min_precedence == 3 {
        power(s, i)
    } else {
        primary(s, i)
    }
}

/// Whether no operator of strength `min_precedence` or above is the next token after `i`.
pub open spec fn binds_below(s: Seq<char>, i: int, min_precedence: u8) -> bool {
    op_at(s, skip_spaces(s, i)) matches Some(op) ==> op.precedence() < min_precedence
}

/// A primary that succeeds ends after where it began, inside the text.
pub proof fn lemma_primary_advances(s: Seq<char>, i: int)
    requires
        0 <= i <= s.len(),
    ensures
        primary(s, i) matches Ok((_, k)) ==> advances(s, i, k),
    decreases s.len() - i, 0nat,
{
    lemma_skip_spaces(s, i);
    let j = skip_spaces(s, i);
    if j < s.len() && s[j] == '(' {
        lemma_sum_advances(s, j + 1);
        if let Ok((_, k)) = sum(s, j + 1) {
            lemma_skip_spaces(s, k);
        }
    } else {
        lemma_literal_advances(s, j);
    }
}

/// The tail of a power ends at or after where it began, inside the text.
pub proof fn lemma_power_tail_advances(s: Seq<char>, base: Expr, i: int)
    requires
        0 <= i <= s.len(),
    ensures
        power_tail(s, base, i) matches Ok((_, k)) ==> i <= k <= s.len(),
    decreases s.len() - i, 1nat,
{
    lemma_skip_spaces(s, i);
    let j = skip_spaces(s, i);
    if op_at(s, j) == Some(Op::Pow) {
        lemma_power_advances(s, j + 1);
    }
}

/// A power that succeeds ends after where it began, inside the text.
pub proof fn lemma_power_advances(s: Seq<char>, i: int)
    requires
        0 <= i <= s.len(),
    ensures
        power(s, i) matches Ok((_, k)) ==> advances(s, i, k),
    decreases s.len() - i, 2nat,
{
    lemma_primary_advances(s, i);
    if let Ok((base, k)) = primary(s, i) {
        lemma_power_tail_advances(s, base, k);
    }
}

/// The tail of a term ends at or after where it began, inside the text.
pub proof fn lemma_term_tail_advances(s: Seq<char>, lhs: Expr, i: int)
    requires
        0 <= i <= s.len(),
    ensures
        term_tail(s, lhs, i) matches Ok((_, k)) ==> i <= k <= s.len(),
    decreases s.len() - i, 3nat,
{
    lemma_skip_spaces(s, i);
    let j = skip_spaces(s, i);
    if let Some(op) = op_at(s, j) {
        if op == Op::Mul || op == Op::Div {
            lemma_power_advances(s, j + 1);
            if let Ok((rhs, k)) = power(s, j + 1) {
                lemma_term_tail_advances(s, binary(lhs, op, rhs), k);
            }
        }
    }
}

/// A term that succeeds ends after where it began, inside the text.
pub proof fn lemma_term_advances(s: Seq<char>, i: int)
    requires
        0 <= i <= s.len(),
    ensures
        term(s, i) matches Ok((_, k)) ==> advances(s, i, k),
    decreases s.len() - i, 4nat,
{
    lemma_power_advances(s, i);
    if let Ok((lhs, k)) = power(s, i) {
        lemma_term_tail_advances(s, lhs, k);
    }
}

/// The tail of a sum ends at or after where it began, inside the text.
pub proof fn lemma_sum_tail_advances(s: Seq<char>, lhs: Expr, i: int)
    requires
        0 <= i <= s.len(),
    ensures
        sum_tail(s, lhs, i) matches Ok((_, k)) ==> i <= k <= s.len(),
    decreases s.len() - i, 5nat,
{
    lemma_skip_spaces(s, i);
    let j = skip_spaces(s, i);
    if let Some(op) = op_at(s, j) {
        if op == Op::Add || op == Op::Sub {
            lemma_term_advances(s, j + 1);
            if let Ok((rhs, k)) = term(s, j + 1) {
                lemma_sum_tail_advances(s, binary(lhs, op, rhs), k);
            }
        }
    }
}

/// A sum that succeeds ends after where it began, inside the text.
pub proof fn lemma_sum_advances(s: Seq<char>, i: int)
    requires
        0 <= i <= s.len(),
    ensures
        sum(s, i) matches Ok((_, k)) ==> advances(s, i, k),
    decreases s.len() - i, 6nat,
{
    lemma_term_advances(s, i);
    if let Ok((lhs, k)) = term(s, i) {
        lemma_sum_tail_advances(s, lhs, k);
    }
}

/// Every rule that succeeds ends after where it began, inside the text: the
/// tests of `advances` in the rules never fail.
pub proof fn lemma_rules_advance(s: Seq<char>, i: int, min_precedence: u8)
    requires
        0 <= i <= s.len(),
    ensures
        rule(s, i, min_precedence) matches Ok((_, k)) ==> advances(s, i, k),
{
    lemma_sum_advances(s, i);
    lemma_term_advances(s, i);
    lemma_power_advances(s, i);
    lemma_primary_advances(s, i);
}

/// No `^` follows a power: the rule has taken every one it could.
pub proof fn lemma_power_follow(s: Seq<char>, i: int)
    requires
        0 <= i <= s.len(),
    ensures
        power(s, i) matches Ok((_, k)) ==> binds_below(s, k, 3),
    decreases s.len() - i,
{
    lemma_primary_advances(s, i);
    if let Ok((base, k)) = primary(s, i) {
        lemma_skip_spaces(s, k);
        let j = skip_spaces(s, k);
        if op_at(s, j) == Some(Op::Pow) {
            lemma_power_follow(s, j + 1);
        }
    }
}

/// No `*`, `/` or `^` follows the tail of a term whose last factor is followed by no `^`.
pub proof fn lemma_term_tail_follow(s: Seq<char>, lhs: Expr, i: int)
    requires
        0 <= i <= s.len(),
        binds_below(s, i, 3),
    ensures
        term_tail(s, lhs, i) matches Ok((_, k)) ==> binds_below(s, k, 2),
    decreases s.len() - i,
{
    lemma_skip_spaces(s, i);
    let j = skip_spaces(s, i);
    if let Some(op) = op_at(s, j) {
        if op == Op::Mul || op == Op::Div {
            lemma_power_advances(s, j + 1);
            lemma_power_follow(s, j + 1);
            if let Ok((rhs, k)) = power(s, j + 1) {
                lemma_term_tail_follow(s, binary(lhs, op, rhs), k);
            }
        }
    }
}

/// No `*`, `/` or `^` follows a term.
pub proof fn lemma_term_follow(s: Seq<char>, i: int)
    requires
        0 <= i <= s.len(),
    ensures
        term(s, i) matches Ok((_, k)) ==> binds_below(s, k, 2),
{
    lemma_power_advances(s, i);
    lemma_power_follow(s, i);
    if let Ok((lhs, k)) = power(s, i) {
        lemma_term_tail_follow(s, lhs, k);
    }
}

} // verus!
