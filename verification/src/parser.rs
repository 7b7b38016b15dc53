//! The parser: one precedence-climbing loop over the operator table of
//! `Op`, proved to yield what the grammar yields.

use vstd::prelude::*;
use crate::ast::{binary, integer, Associativity, Calculation, Expr, Formatter, Op};
use crate::error::ParseError;
use crate::grammar::{
    calculation, formatter_at, lemma_power_advances, lemma_power_follow, lemma_primary_advances,
    lemma_term_advances, lemma_term_follow, op_at, power_tail, primary, rule, sum_tail,
    term_tail, Parsed,
};
use crate::lexer::{lemma_skip_spaces, literal_at, scan_literal, skip_blanks, skip_spaces};

verus! {

/// What the rule of strength `min_precedence` makes of an operand that has
/// been read already and ends at `i`: the tails of the tighter rules first.
spec fn resume(s: Seq<char>, lhs: Expr, i: int, min_precedence: u8) -> Parsed {
    if min_precedence >= 4 {
        Ok((lhs, i))
    } else {
        match power_tail(s, lhs, i) {
            Ok((p, k)) => if min_precedence == 3 {
                Ok((p, k))
            } else {
                match term_tail(s, p, k) {
                    Ok((t, m)) => if min_precedence == 2 {
                        Ok((t, m))
                    } else {
                        sum_tail(s, t, m)
                    },
                    Err(e) => Err(e),
                }
            },
            Err(e) => Err(e),
        }
    }
}

/// The strength that the right operand of `op` is parsed at: one tighter for
/// an operator that groups to the left, the same for one that groups to the right.
spec fn operand_precedence(op: Op) -> u8 {
    match op.associativity() {
        Associativity::Left => (op.precedence() + 1) as u8,
        Associativity::Right => op.precedence(),
    }
}

/// Every rule is a primary followed by what `resume` makes of it.
proof fn lemma_rule_resumes(s: Seq<char>, i: int, min_precedence: u8)
    requires
        0 <= i <= s.len(),
    ensures
        rule(s, i, min_precedence) == match primary(s, i) {
            Ok((e, k)) => resume(s, e, k, min_precedence),
            Err(e) => Err(e),
        },
{
    lemma_primary_advances(s, i);
    lemma_power_advances(s, i);
    lemma_term_advances(s, i);
}

/// One turn of the loop: with `op` next and its right operand parsed, the rule
/// goes on from the node that joins them, or fails as the operand did.
proof fn lemma_resume_steps(s: Seq<char>, lhs: Expr, i: int, min_precedence: u8, op: Op)
    requires
        0 <= i <= s.len(),
        op_at(s, skip_spaces(s, i)) == Some(op),
        op.precedence() >= min_precedence,
    ensures
        match rule(s, skip_spaces(s, i) + 1, operand_precedence(op)) {
            Ok((rhs, k)) => resume(s, lhs, i, min_precedence) == resume(
                s,
                binary(lhs, op, rhs),
                k,
                min_precedence,
            ),
            Err(e) => resume(s, lhs, i, min_precedence) == Err::<(Expr, int), ParseError>(e),
        },
{
    lemma_skip_spaces(s, i);
    let j = skip_spaces(s, i);
    // the operand ends after the operator, and no operator as tight as its
    // own rule follows it
    lemma_power_advances(s, j + 1);
    lemma_power_follow(s, j + 1);
    lemma_term_advances(s, j + 1);
    lemma_term_follow(s, j + 1);
}

/// Parses a literal or a parenthesised expression at `i`.
pub fn parse_primary(s: &[char], i: usize) -> (r: Result<(Expr, usize), ParseError>)
    requires
        i <= s@.len(),
    ensures
        match r {
            Ok((e, k)) => primary(s@, i as int) == Ok::<(Expr, int), ParseError>((e, k as int))
                && i < k <= s@.len(),
            Err(x) => primary(s@, i as int) == Err::<(Expr, int), ParseError>(x),
        },
    decreases s@.len() - i, 0nat,
{
    let j = skip_blanks(s, i);
    if j < s.len() && s[j] == '(' {
        let (inner, k) = match parse_expr(s, j + 1, 1) {
            Ok(found) => found,
            Err(e) => {
                return Err(e);
            },
        };
        let close = skip_blanks(s, k);
        if close < s.len() && s[close] == ')' {
            Ok((inner, close + 1))
        } else {
            Err(ParseError::SyntaxError)
        }
    } else {
        match scan_literal(s, j) {
            Ok((literal, k)) => Ok((Expr::integer(literal.value), k)),
            Err(e) => Err(e),
        }
    }
}

/// Parses at `i` an expression whose operators all have strength
/// `min_precedence` or above, by precedence climbing.
pub fn parse_expr(s: &[char], i: usize, min_precedence: u8) -> (r: Result<
    (Expr, usize),
    ParseError,
>)
    requires
        i <= s@.len(),
    ensures
        match r {
            Ok((e, k)) => rule(s@, i as int, min_precedence) == Ok::<(Expr, int), ParseError>(
                (e, k as int),
            ) && i < k <= s@.len(),
            Err(x) => rule(s@, i as int, min_precedence) == Err::<(Expr, int), ParseError>(x),
        },
    decreases s@.len() - i, 1nat,
{
    let (mut lhs, mut pos) = match parse_primary(s, i) {
        Ok(found) => found,
        Err(e) => {
            return Err(e);
        },
    };
    proof {
        lemma_rule_resumes(s@, i as int, min_precedence);
    }
    loop
        invariant
            i < pos <= s@.len(),
            rule(s@, i as int, min_precedence) == resume(s@, lhs, pos as int, min_precedence),
        ensures
            i < pos <= s@.len(),
            rule(s@, i as int, min_precedence) == Ok::<(Expr, int), ParseError>(
                (lhs, pos as int),
            ),
        decreases s@.len() - pos,
    {
        let j = skip_blanks(s, pos);
        if j >= s.len() {
            break ;
        }
        let op = match Op::from_char(s[j]) {
            Some(op) => op,
            None => {
                break ;
            },
        };
        let precedence = op.precedence();
        if precedence < min_precedence {
            break ;
        }
        let operand_min = match op.associativity() {
            Associativity::Left => precedence + 1,
            Associativity::Right => precedence,
        };
        proof {
            lemma_resume_steps(s@, lhs, pos as int, min_precedence, op);
        }
        match parse_expr(s, j + 1, operand_min) {
            Ok((rhs, k)) => {
                lhs = Expr::binary(lhs, op, rhs);
                pos = k;
            },
            Err(e) => {
                return Err(e);
            },
        }
    }
    Ok((lhs, pos))
}

/// Parses what may stand between the expression and the end of the line.
pub fn parse_formatter(s: &[char], i: usize) -> (r: Result<Option<Formatter>, ParseError>)
    requires
        i <= s@.len(),
    ensures
        r == formatter_at(s@, i as int),
{
    let n = s.len();
    let j = skip_blanks(s, i);
    if j >= n {
        return Ok(None);
    }
    if n - j < 2 || s[j] != '#' {
        return Err(ParseError::SyntaxError);
    }
    let formatter = if s[j + 1] == 'x' {
        Formatter::Hex
    } else if s[j + 1] == 'b' {
        Formatter::Binary
    } else {
        return Err(ParseError::SyntaxError);
    };
    if skip_blanks(s, j + 2) >= n {
        Ok(Some(formatter))
    } else {
        Err(ParseError::SyntaxError)
    }
}

/// The characters of `input`, in order.
pub fn chars_of(input: &str) -> (chars: Vec<char>)
    ensures
        chars@ == input@,
{
    let mut chars: Vec<char> = Vec::new();
    for c in it: input.chars()
        invariant
            it.seq() == input@,
            chars@ == it.seq().take(it.index()),
    {
        chars.push(c);
    }
    chars
}

/// Parses a line that is already split into characters.
pub fn parse_chars(s: &[char]) -> (r: Result<Calculation, ParseError>)
    ensures
        r == calculation(s@),
{
    let (expr, i) = match parse_expr(s, 0, 1) {
        Ok(found) => found,
        Err(e) => {
            return Err(e);
        },
    };
    match parse_formatter(s, i) {
        Ok(formatter) => Ok(Calculation { expr, formatter }),
        Err(e) => Err(e),
    }
}

/// Parses one line: an expression, then an optional `#x` or `#b`.
///
/// The result is what the grammar yields for the whole line: the tree and the
/// display directive, `SyntaxError` where the text does not follow the
/// grammar, `LiteralOverflow` where a literal does not fit in 64 bits signed;
/// of two failures, the one met first from the left.
pub fn parse(input: &str) -> (r: Result<Calculation, ParseError>)
    ensures
        r == calculation(input@),
{
    let chars = chars_of(input);
    parse_chars(chars.as_slice())
}

/// What a text that is one integer literal, and nothing else, stands for.
pub open spec fn literal_expr(s: Seq<char>) -> Result<Expr, ParseError> {
    match literal_at(s, 0) {
        Ok((literal, end)) => if end == s.len() {
            Ok(integer(literal.value))
        } else {
            Err(ParseError::SyntaxError)
        },
        Err(e) => Err(e),
    }
}

/// Turns the text of one integer literal into a leaf of the tree.
pub fn parse_enum(parsed_num: &str) -> (r: Result<Expr, ParseError>)
    ensures
        r == literal_expr(parsed_num@),
{
    let chars = chars_of(parsed_num);
    match scan_literal(chars.as_slice(), 0) {
        Ok((literal, end)) => if end == chars.len() {
            Ok(Expr::integer(literal.value))
        } else {
            Err(ParseError::SyntaxError)
        },
        Err(e) => Err(e),
    }
}

} // verus!
