//! What holds between rendering, parsing and evaluating.

use vstd::prelude::*;
use crate::arith::in_range;
use crate::ast::{binary, integer, Calculation, Expr, Formatter, Op};
use crate::error::{EvalError, ParseError};
use crate::evaluator::outcome;
use crate::format::{decimal, digits, rendering};
use crate::grammar::{calculation, power, primary, sum, term};
use crate::lexer::{
    digit_value, digits_end, digits_value, is_digit, lemma_digits_end_from, literal_at, Literal,
    Radix,
};

verus! {

/// The number that a run of digits spells depends on those digits alone.
proof fn lemma_digits_value_local(
    s: Seq<char>,
    t: Seq<char>,
    lo: int,
    hi: int,
    shift: int,
    radix: Radix,
)
    requires
        forall|k: int| lo <= k < hi ==> s[k] == t[k + shift],
    ensures
        digits_value(s, lo, hi, radix) == digits_value(t, lo + shift, hi + shift, radix),
    decreases hi - lo,
{
    if lo < hi {
        lemma_digits_value_local(s, t, lo, hi - 1, shift, radix);
    }
}

/// The digits of `n` are digits of the radix, at least one, and spell `n`.
proof fn lemma_digits_spell(n: nat, radix: Radix)
    ensures
        digits(n, radix).len() >= 1,
        forall|k: int|
            0 <= k < digits(n, radix).len() ==> is_digit(#[trigger] digits(n, radix)[k], radix),
        digits_value(digits(n, radix), 0, digits(n, radix).len() as int, radix) == n,
    decreases n,
{
    let base = radix.base() as nat;
    let text = digits(n, radix);
    if n < base {
        assert(digits_value(text, 0, 0, radix) == 0);
    } else {
        let lead = digits(n / base, radix);
        assert(n / base < n) by (nonlinear_arith)
            requires
                base >= 2,
                n >= base,
        ;
        lemma_digits_spell(n / base, radix);
        lemma_digits_value_local(text, lead, 0, lead.len() as int, 0, radix);
        assert(n == (n / base) * base + n % base) by (nonlinear_arith)
            requires
                base >= 2,
        ;
    }
}

/// A text in which `marks` is followed by nothing but the digits of `n`
/// holds a run of digits after `marks` that reaches the end and spells `n`.
proof fn lemma_digits_after(marks: Seq<char>, n: nat, radix: Radix)
    ensures
        ({
            let s = marks + digits(n, radix);
            &&& digits_end(s, marks.len() as int, radix) == s.len()
            &&& s.len() > marks.len()
            &&& digits_value(s, marks.len() as int, s.len() as int, radix) == n
        }),
{
    let d = digits(n, radix);
    let s = marks + d;
    let start = marks.len() as int;
    lemma_digits_spell(n, radix);
    assert forall|k: int| start <= k < s.len() implies is_digit(#[trigger] s[k], radix) by {
        assert(s[k] == d[k - start]);
    }
    lemma_digits_end_from(s, start, s.len() as int, radix);
    lemma_digits_value_local(d, s, 0, d.len() as int, start, radix);
}

/// The number of characters that the sign of `s` takes: one for a leading minus, else none.
pub open spec fn sign_len(s: Seq<char>) -> int {
    if s.len() > 0 && s[0] == '-' {
        1
    } else {
        0
    }
}

/// Whether `s` is a decimal integer: an optional minus sign, then one or
/// more decimal digits and nothing else.
pub open spec fn is_decimal_integer(s: Seq<char>) -> bool {
    &&& s.len() > sign_len(s)
    &&& forall|k: int| sign_len(s) <= k < s.len() ==> is_digit(#[trigger] s[k], Radix::Decimal)
}

/// The number that the decimal integer `s` stands for.
pub open spec fn decimal_integer_value(s: Seq<char>) -> int {
    let distance = digits_value(s, sign_len(s), s.len() as int, Radix::Decimal);
    if sign_len(s) == 1 {
        -distance
    } else {
        distance as int
    }
}

/// A line that is a decimal integer within the signed 64-bit range parses to
/// the leaf of its value, without a display directive, and that calculation
/// evaluates to the value, shown in decimal. One outside the range is
/// refused as an overflow.
pub proof fn lemma_decimal_integer_parses(s: Seq<char>)
    requires
        is_decimal_integer(s),
    ensures
        in_range(decimal_integer_value(s)) ==> {
            let n = decimal_integer_value(s) as i64;
            &&& calculation(s) == Ok::<Calculation, ParseError>(
                Calculation { expr: integer(n), formatter: None },
            )
            &&& outcome(Calculation { expr: integer(n), formatter: None }) == Ok::<
                (i64, Seq<char>),
                EvalError,
            >((n, decimal(n as int)))
        },
        !in_range(decimal_integer_value(s)) ==> calculation(s) == Err::<Calculation, ParseError>(
            ParseError::LiteralOverflow,
        ),
{
    let start = sign_len(s);
    let end = s.len() as int;
    lemma_digits_end_from(s, start, end, Radix::Decimal);
    if in_range(decimal_integer_value(s)) {
        let n = decimal_integer_value(s) as i64;
    }
}

/// The decimal rendering of a value is a decimal integer that stands for the value.
pub proof fn lemma_decimal_is_decimal_integer(n: i64)
    ensures
        is_decimal_integer(decimal(n as int)),
        decimal_integer_value(decimal(n as int)) == n,
{
    let s = decimal(n as int);
    if n < 0 {
        lemma_digits_after(seq!['-'], (-n) as nat, Radix::Decimal);
        lemma_digits_spell((-n) as nat, Radix::Decimal);
        assert forall|k: int| 1 <= k < s.len() implies is_digit(#[trigger] s[k], Radix::Decimal) by {
            assert(s[k] == digits((-n) as nat, Radix::Decimal)[k - 1]);
        }
    } else {
        lemma_digits_spell(n as nat, Radix::Decimal);
    }
}

/// A line that holds nothing but the decimal rendering of a signed 64-bit
/// value `n` parses to the leaf `n` without a display directive, and that
/// calculation evaluates to `n`, shown as the same decimal rendering.
pub proof fn lemma_decimal_round_trip(n: i64)
    ensures
        calculation(decimal(n as int)) == Ok::<Calculation, ParseError>(
            Calculation { expr: integer(n), formatter: None },
        ),
        outcome(Calculation { expr: integer(n), formatter: None }) == Ok::<
            (i64, Seq<char>),
            EvalError,
        >((n, decimal(n as int))),
{
    lemma_decimal_is_decimal_integer(n);
    lemma_decimal_integer_parses(decimal(n as int));
}

/// Rendering is idempotent through the parser: where a calculation has a
/// value, the decimal rendering of that value parses to a calculation that
/// has the same value and the same decimal rendering.
pub proof fn lemma_rendering_reparses(calc: Calculation)
    requires
        outcome(calc) is Ok,
    ensures
        ({
            let value = outcome(calc)->Ok_0.0;
            &&& calculation(decimal(value as int)) matches Ok(again)
            &&& outcome(again) == Ok::<(i64, Seq<char>), EvalError>(
                (value, decimal(value as int)),
            )
        }),
{
    lemma_decimal_round_trip(outcome(calc)->Ok_0.0);
}

/// The hexadecimal and binary renderings of a value that is not negative
/// parse to the leaf of that value.
pub proof fn lemma_based_round_trip(n: i64, formatter: Formatter)
    requires
        n >= 0,
    ensures
        calculation(rendering(n, Some(formatter))) == Ok::<Calculation, ParseError>(
            Calculation { expr: integer(n), formatter: None },
        ),
{
    let s = rendering(n, Some(formatter));
    match formatter {
        Formatter::Hex => {
            lemma_digits_after(seq!['0', 'x'], n as nat, Radix::Hex);
        },
        Formatter::Binary => {
            lemma_digits_after(seq!['0', 'b'], n as nat, Radix::Binary);
        },
    }
}

/// `expr` written out in full: a leaf in decimal, a node as its two operands
/// around its operator, in parentheses.
pub open spec fn written(expr: Expr) -> Seq<char>
    decreases expr,
{
    match expr {
        Expr::Integer(leaf) => decimal(leaf.value as int),
        Expr::BinaryOp(node) => seq!['('] + written(*node.lhs) + seq![node.op.symbol()] + written(
            *node.rhs,
        ) + seq![')'],
    }
}

/// Whether the text `w` stands in `s` at `i`, followed by the end of `s` or
/// by a character that could not prolong a literal.
spec fn stands_at(s: Seq<char>, i: int, w: Seq<char>) -> bool {
    let end = i + w.len();
    &&& 0 <= i
    &&& end <= s.len()
    &&& forall|k: int| 0 <= k < w.len() ==> s[i + k] == #[trigger] w[k]
    &&& end < s.len() ==> digit_value(s[end]) is None && s[end] != 'x'
}

/// Where the decimal rendering of `n` stands in a line, a primary is read
/// there, and it is the leaf `n`.
proof fn lemma_leaf_is_primary(n: i64, s: Seq<char>, i: int)
    requires
        stands_at(s, i, decimal(n as int)),
    ensures
        decimal(n as int).len() > 0,
        primary(s, i) == Ok::<(Expr, int), ParseError>((integer(n), i + decimal(n as int).len())),
{
    let w = decimal(n as int);
    let start = sign_len(w);
    let end = i + w.len();
    lemma_decimal_is_decimal_integer(n);
    assert forall|k: int| i + start <= k < end implies is_digit(#[trigger] s[k], Radix::Decimal) by {
        assert(s[k] == w[k - i]);
    }
    lemma_digits_end_from(s, i + start, end, Radix::Decimal);
    lemma_digits_value_local(w, s, start, w.len() as int, i, Radix::Decimal);
    assert(literal_at(s, i) == Ok::<(Literal, int), ParseError>(
        (Literal { value: n, radix: Radix::Decimal }, end),
    ));
}

/// A primary, an operator right after it, a primary right after that and a
/// closing parenthesis make, behind an opening one, the primary of their node.
proof fn lemma_node_is_primary(
    s: Seq<char>,
    i: int,
    lhs: Expr,
    op: Op,
    rhs: Expr,
    at_op: int,
    close: int,
)
    requires
        0 <= i,
        i + 1 < at_op,
        at_op + 1 < close < s.len(),
        s[i] == '(',
        s[at_op] == op.symbol(),
        s[close] == ')',
        primary(s, i + 1) == Ok::<(Expr, int), ParseError>((lhs, at_op)),
        primary(s, at_op + 1) == Ok::<(Expr, int), ParseError>((rhs, close)),
    ensures
        primary(s, i) == Ok::<(Expr, int), ParseError>((binary(lhs, op, rhs), close + 1)),
{
    // the right operand is followed by `)`, so each rule ends where its primary ends
    assert(power(s, at_op + 1) == Ok::<(Expr, int), ParseError>((rhs, close)));
    assert(term(s, at_op + 1) == Ok::<(Expr, int), ParseError>((rhs, close)));
    assert(sum(s, i + 1) == Ok::<(Expr, int), ParseError>((binary(lhs, op, rhs), close)));
}

/// Where the text of `expr` stands in a line, a primary is read there, and
/// it is `expr`.
proof fn lemma_written_is_primary(expr: Expr, s: Seq<char>, i: int)
    requires
        stands_at(s, i, written(expr)),
    ensures
        written(expr).len() > 0,
        primary(s, i) == Ok::<(Expr, int), ParseError>((expr, i + written(expr).len())),
    decreases expr,
{
    let w = written(expr);
    match expr {
        Expr::Integer(leaf) => {
            lemma_leaf_is_primary(leaf.value, s, i);
        },
        Expr::BinaryOp(node) => {
            let lhs = *node.lhs;
            let rhs = *node.rhs;
            let op = node.op;
            let at_op = i + 1 + written(lhs).len();
            let close = at_op + 1 + written(rhs).len();
            assert(s[i] == w[0] && w[0] == '(');
            assert(s[i + (at_op - i)] == w[at_op - i] && w[at_op - i] == op.symbol());
            assert(s[i + (close - i)] == w[close - i] && w[close - i] == ')');
            assert forall|k: int| 0 <= k < written(lhs).len() implies s[i + 1 + k]
                == #[trigger] written(lhs)[k] by {
                assert(s[i + (1 + k)] == w[1 + k]);
            }
            assert forall|k: int| 0 <= k < written(rhs).len() implies s[at_op + 1 + k]
                == #[trigger] written(rhs)[k] by {
                assert(s[i + (at_op + 1 - i + k)] == w[at_op + 1 - i + k]);
            }
            lemma_written_is_primary(lhs, s, i + 1);
            lemma_written_is_primary(rhs, s, at_op + 1);
            lemma_node_is_primary(s, i, lhs, op, rhs, at_op, close);
        },
    }
}

/// Every tree is what the parser makes of the tree written out in full:
/// no tree is out of the parser's reach, the parentheses alone decide the
/// grouping, and they leave no trace in the tree.
pub proof fn lemma_written_parses(expr: Expr)
    ensures
        calculation(written(expr)) == Ok::<Calculation, ParseError>(
            Calculation { expr, formatter: None },
        ),
{
    let s = written(expr);
    lemma_written_is_primary(expr, s, 0);
}

} // verus!
