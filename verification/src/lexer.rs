//! Characters, blanks and integer literals.

use vstd::prelude::*;
use crate::error::ParseError;

verus! {

/// The base an integer literal is written in.
#[derive(Debug, PartialEq, Eq, Clone, Copy)]
pub enum Radix {
    Binary,
    Decimal,
    Hex,
}

impl Radix {
    /// The number of distinct digits.
    pub open spec fn spec_base(&self) -> u64 {
        match *self {
            Radix::Binary => 2,
            Radix::Decimal => 10,
            Radix::Hex => 16,
        }
    }

    #[verifier::when_used_as_spec(spec_base)]
    pub fn base(&self) -> (b: u64)
        ensures
            b == self.spec_base(),
    {
        match self {
            Radix::Binary => 2,
            Radix::Decimal => 10,
            Radix::Hex => 16,
        }
    }
}

/// An integer literal: its value and the base it was written in.
#[derive(Debug, PartialEq, Eq, Clone, Copy)]
pub struct Literal {
    pub value: i64,
    pub radix: Radix,
}

/// Blanks that may surround a token: space and tab.
pub open spec fn is_space(c: char) -> bool {
    c == ' ' || c == '\t'
}

/// The first position at or after `i` that holds no blank.
pub open spec fn skip_spaces(s: Seq<char>, i: int) -> int
    decreases s.len() - i,
{
    if 0 <= i < s.len() && is_space(s[i]) {
        skip_spaces(s, i + 1)
    } else {
        i
    }
}

/// The value of `c` read as a single digit, whatever the base: `0`-`9`,
/// then `a`-`f` or `A`-`F` for ten to fifteen.
pub open spec fn digit_value(c: char) -> Option<u64> {
    if '0' <= c <= '9' {
        Some((c as u64 - '0' as u64) as u64)
    } else if 'a' <= c <= 'f' {
        Some((c as u64 - 'a' as u64 + 10) as u64)
    } else if 'A' <= c <= 'F' {
        Some((c as u64 - 'A' as u64 + 10) as u64)
    } else {
        None
    }
}

/// Whether `c` is a digit of `radix`.
pub open spec fn is_digit(c: char, radix: Radix) -> bool {
    digit_value(c) matches Some(d) && d < radix.base()
}

/// The end of the longest run of digits of `radix` that starts at `i`.
pub open spec fn digits_end(s: Seq<char>, i: int, radix: Radix) -> int
    decreases s.len() - i,
{
    if 0 <= i < s.len() && is_digit(s[i], radix) {
        digits_end(s, i + 1, radix)
    } else {
        i
    }
}

/// The number that the digits `s[lo..hi]` spell in `radix`, most significant first.
pub open spec fn digits_value(s: Seq<char>, lo: int, hi: int, radix: Radix) -> nat
    decreases hi - lo,
{
    if hi <= lo {
        0
    } else {
        digits_value(s, lo, hi - 1, radix) * (radix.base() as nat) + (digit_value(
            s[hi - 1],
        ).unwrap() as nat)
    }
}

/// The largest magnitude a literal may have: one more below zero than above.
pub open spec fn magnitude_limit(negative: bool) -> nat {
    if negative {
        0x8000_0000_0000_0000
    } else {
        0x7fff_ffff_ffff_ffff
    }
}

/// The run of digits of `radix` at `i`, read as a literal with the given sign.
/// There must be a digit, and the value must fit.
pub open spec fn number_at(s: Seq<char>, i: int, radix: Radix, negative: bool) -> Result<
    (Literal, int),
    ParseError,
> {
    let end = digits_end(s, i, radix);
    let magnitude = digits_value(s, i, end, radix);
    if end <= i {
        Err(ParseError::SyntaxError)
    } else if magnitude > magnitude_limit(negative) {
        Err(ParseError::LiteralOverflow)
    } else if negative {
        Ok((Literal { value: (-magnitude) as i64, radix }, end))
    } else {
        Ok((Literal { value: magnitude as i64, radix }, end))
    }
}

/// Whether `s` holds `a` at `i` and `b` right after it.
pub open spec fn pair_at(s: Seq<char>, i: int, a: char, b: char) -> bool {
    0 <= i && i + 1 < s.len() && s[i] == a && s[i + 1] == b
}

/// The integer literal that starts at `i`, and where it ends: `0x` and
/// hexadecimal digits, `0b` and binary digits, or decimal digits, which
/// alone may follow a minus sign.
pub open spec fn literal_at(s: Seq<char>, i: int) -> Result<(Literal, int), ParseError> {
    if pair_at(s, i, '0', 'x') {
        number_at(s, i + 2, Radix::Hex, false)
    } else if pair_at(s, i, '0', 'b') {
        number_at(s, i + 2, Radix::Binary, false)
    } else if 0 <= i < s.len() && s[i] == '-' {
        number_at(s, i + 1, Radix::Decimal, true)
    } else {
        number_at(s, i, Radix::Decimal, false)
    }
}

/// Each position up to the end of a run of digits holds a digit, and the run
/// ends inside the text.
pub proof fn lemma_digits_end(s: Seq<char>, i: int, radix: Radix)
    requires
        0 <= i <= s.len(),
    ensures
        i <= digits_end(s, i, radix) <= s.len(),
        forall|k: int| i <= k < digits_end(s, i, radix) ==> is_digit(#[trigger] s[k], radix),
        digits_end(s, i, radix) < s.len() ==> !is_digit(s[digits_end(s, i, radix)], radix),
    decreases s.len() - i,
{
    if i < s.len() && is_digit(s[i], radix) {
        lemma_digits_end(s, i + 1, radix);
    }
}

/// A run of digits ends where it would end if scanned from any position inside it.
pub proof fn lemma_digits_end_from(s: Seq<char>, i: int, k: int, radix: Radix)
    requires
        0 <= i <= k <= s.len(),
        forall|j: int| i <= j < k ==> is_digit(#[trigger] s[j], radix),
    ensures
        digits_end(s, i, radix) == digits_end(s, k, radix),
    decreases k - i,
{
    if i < k {
        lemma_digits_end_from(s, i + 1, k, radix);
    }
}

/// Blanks are skipped forwards, and never past the end of the text.
pub proof fn lemma_skip_spaces(s: Seq<char>, i: int)
    requires
        0 <= i <= s.len(),
    ensures
        i <= skip_spaces(s, i) <= s.len(),
        forall|k: int| i <= k < skip_spaces(s, i) ==> is_space(#[trigger] s[k]),
        skip_spaces(s, i) < s.len() ==> !is_space(s[skip_spaces(s, i)]),
    decreases s.len() - i,
{
    if i < s.len() && is_space(s[i]) {
        lemma_skip_spaces(s, i + 1);
    }
}

/// The digits read so far never spell more than the whole run does.
pub proof fn lemma_digits_value_monotonic(s: Seq<char>, lo: int, mid: int, hi: int, radix: Radix)
    requires
        lo <= mid <= hi,
    ensures
        digits_value(s, lo, mid, radix) <= digits_value(s, lo, hi, radix),
    decreases hi - mid,
{
    if mid < hi {
        lemma_digits_value_monotonic(s, lo, mid, hi - 1, radix);
        let prefix = digits_value(s, lo, hi - 1, radix);
        let base = radix.base() as nat;
        assert(prefix <= prefix * base) by (nonlinear_arith)
            requires
                base >= 1,
        ;
    }
}

/// A literal holds at least one character and ends inside the text.
pub proof fn lemma_literal_advances(s: Seq<char>, i: int)
    requires
        0 <= i <= s.len(),
    ensures
        literal_at(s, i) matches Ok((_, end)) ==> i < end <= s.len(),
{
    if pair_at(s, i, '0', 'x') {
        lemma_digits_end(s, i + 2, Radix::Hex);
    } else if pair_at(s, i, '0', 'b') {
        lemma_digits_end(s, i + 2, Radix::Binary);
    } else if i < s.len() && s[i] == '-' {
        lemma_digits_end(s, i + 1, Radix::Decimal);
    } else {
        lemma_digits_end(s, i, Radix::Decimal);
    }
}

/// The first position at or after `i` that holds no blank.
pub fn skip_blanks(s: &[char], i: usize) -> (j: usize)
    requires
        i <= s@.len(),
    ensures
        j == skip_spaces(s@, i as int),
        i <= j <= s@.len(),
{
    let mut j = i;
    while j < s.len() && (s[j] == ' ' || s[j] == '\t')
        invariant
            i <= j <= s@.len(),
            skip_spaces(s@, i as int) == skip_spaces(s@, j as int),
        decreases s@.len() - j,
    {
        j += 1;
    }
    j
}

/// The value of `c` as a digit of `radix`, if it is one.
pub fn digit(c: char, radix: Radix) -> (d: Option<u64>)
    ensures
        d is Some <==> is_digit(c, radix),
        d matches Some(v) ==> digit_value(c) == Some(v) && v < radix.base(),
{
    let value: u64 = if '0' <= c && c <= '9' {
        c as u64 - '0' as u64
    } else if 'a' <= c && c <= 'f' {
        c as u64 - 'a' as u64 + 10
    } else if 'A' <= c && c <= 'F' {
        c as u64 - 'A' as u64 + 10
    } else {
        return None;
    };
    if value < radix.base() {
        Some(value)
    } else {
        None
    }
}

/// Reads the run of digits of `radix` at `i` as a literal with the given sign.
pub fn scan_number(s: &[char], i: usize, radix: Radix, negative: bool) -> (r: Result<
    (Literal, usize),
    ParseError,
>)
    requires
        i <= s@.len(),
    ensures
        match number_at(s@, i as int, radix, negative) {
            Ok((literal, end)) => r == Ok::<(Literal, usize), ParseError>((literal, end as usize))
                && i < end <= s@.len(),
            Err(e) => r == Err::<(Literal, usize), ParseError>(e),
        },
{
    let limit: u64 = if negative {
        0x8000_0000_0000_0000
    } else {
        0x7fff_ffff_ffff_ffff
    };
    let base = radix.base();
    let mut magnitude: u64 = 0;
    let mut k = i;
    let ghost end = digits_end(s@, i as int, radix);
    proof {
        lemma_digits_end(s@, i as int, radix);
    }
    while k < s.len()
        invariant
            i <= k <= end <= s@.len(),
            end == digits_end(s@, i as int, radix),
            end == digits_end(s@, k as int, radix),
            magnitude == digits_value(s@, i as int, k as int, radix),
            magnitude <= limit,
            limit == magnitude_limit(negative),
            base == radix.base(),
        ensures
            k == end,
        decreases s@.len() - k,
    {
        let d = match digit(s[k], radix) {
            Some(d) => d,
            None => {
                break ;
            },
        };
        proof {
            lemma_digits_end(s@, k + 1, radix);
            lemma_digits_value_monotonic(s@, i as int, k + 1, end as int, radix);
            // sixteen times the limit, and fifteen more, fits in 128 bits
            assert(magnitude * base <= 0x8000_0000_0000_0000 * 16) by (nonlinear_arith)
                requires
                    magnitude <= 0x8000_0000_0000_0000,
                    base <= 16,
            ;
        }
        let wide: u128 = magnitude as u128 * base as u128 + d as u128;
        if wide > limit as u128 {
            return Err(ParseError::LiteralOverflow);
        }
        magnitude = wide as u64;
        k += 1;
    }
    if k == i {
        Err(ParseError::SyntaxError)
    } else if negative {
        let value: i64 = if magnitude == 0x8000_0000_0000_0000 {
            i64::MIN
        } else {
            -(magnitude as i64)
        };
        Ok((Literal { value, radix }, k))
    } else {
        Ok((Literal { value: magnitude as i64, radix }, k))
    }
}

/// Reads the integer literal that starts at `i`.
pub fn scan_literal(s: &[char], i: usize) -> (r: Result<(Literal, usize), ParseError>)
    requires
        i <= s@.len(),
    ensures
        match literal_at(s@, i as int) {
            Ok((literal, end)) => r == Ok::<(Literal, usize), ParseError>((literal, end as usize))
                && i < end <= s@.len(),
            Err(e) => r == Err::<(Literal, usize), ParseError>(e),
        },
{
    let n = s.len();
    if i < n && n - i >= 2 && s[i] == '0' && s[i + 1] == 'x' {
        scan_number(s, i + 2, Radix::Hex, false)
    } else if i < n && n - i >= 2 && s[i] == '0' && s[i + 1] == 'b' {
        scan_number(s, i + 2, Radix::Binary, false)
    } else if i < n && s[i] == '-' {
        scan_number(s, i + 1, Radix::Decimal, true)
    } else {
        scan_number(s, i, Radix::Decimal, false)
    }
}

} // verus!
