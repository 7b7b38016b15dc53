//! The three renderings of a value: decimal, hexadecimal and binary.

use vstd::prelude::*;
use crate::ast::Formatter;
use crate::lexer::Radix;

verus! {

/// The character for the digit `d`: `0`-`9`, then `A`-`F`.
pub open spec fn digit_char(d: nat) -> char {
    seq![
        '0',
        '1',
        '2',
        '3',
        '4',
        '5',
        '6',
        '7',
        '8',
        '9',
        'A',
        'B',
        'C',
        'D',
        'E',
        'F',
    ][d as int]
}

/// The digits of `n` in `radix`, most significant first, without leading
/// zeros; a single `0` for zero.
pub open spec fn digits(n: nat, radix: Radix) -> Seq<char>
    decreases n,
{
    let base = radix.base() as nat;
    if n < base {
        seq![digit_char(n)]
    } else {
        proof {
            assert(n / base < n) by (nonlinear_arith)
                requires
                    base >= 2,
                    n >= base,
            ;
        }
        digits(n / base, radix).push(digit_char(n % base))
    }
}

/// The 64-bit pattern of `v` read as an unsigned number.
pub open spec fn twos_complement(v: i64) -> nat {
    if v < 0 {
        (v + 0x1_0000_0000_0000_0000) as nat
    } else {
        v as nat
    }
}

/// `v` in decimal, with a minus sign where it is negative.
pub open spec fn decimal(v: int) -> Seq<char> {
    if v < 0 {
        seq!['-'] + digits((-v) as nat, Radix::Decimal)
    } else {
        digits(v as nat, Radix::Decimal)
    }
}

/// `v` as `0x` and the upper-case hexadecimal digits of its 64-bit pattern.
pub open spec fn hexadecimal(v: i64) -> Seq<char> {
    seq!['0', 'x'] + digits(twos_complement(v), Radix::Hex)
}

/// `v` as `0b` and the binary digits of its 64-bit pattern.
pub open spec fn binary(v: i64) -> Seq<char> {
    seq!['0', 'b'] + digits(twos_complement(v), Radix::Binary)
}

/// `v` as the display directive asks: decimal where there is none.
pub open spec fn rendering(v: i64, formatter: Option<Formatter>) -> Seq<char> {
    match formatter {
        None => decimal(v as int),
        Some(Formatter::Hex) => hexadecimal(v),
        Some(Formatter::Binary) => binary(v),
    }
}

/// The text of the single digit `d`.
fn digit_text(d: u64) -> (text: &'static str)
    requires
        d < 16,
    ensures
        text@ == seq![digit_char(d as nat)],
{
    proof {
        reveal_strlit("0");
        reveal_strlit("1");
        reveal_strlit("2");
        reveal_strlit("3");
        reveal_strlit("4");
        reveal_strlit("5");
        reveal_strlit("6");
        reveal_strlit("7");
        reveal_strlit("8");
        reveal_strlit("9");
        reveal_strlit("A");
        reveal_strlit("B");
        reveal_strlit("C");
        reveal_strlit("D");
        reveal_strlit("E");
        reveal_strlit("F");
    }
    let text = if d == 0 {
        "0"
    } else if d == 1 {
        "1"
    } else if d == 2 {
        "2"
    } else if d == 3 {
        "3"
    } else if d == 4 {
        "4"
    } else if d == 5 {
        "5"
    } else if d == 6 {
        "6"
    } else if d == 7 {
        "7"
    } else if d == 8 {
        "8"
    } else if d == 9 {
        "9"
    } else if d == 10 {
        "A"
    } else if d == 11 {
        "B"
    } else if d == 12 {
        "C"
    } else if d == 13 {
        "D"
    } else if d == 14 {
        "E"
    } else {
        "F"
    };
    text
}

/// Appends the digits of `n` in `radix` to `out`.
pub fn push_digits(out: &mut String, n: u64, radix: Radix)
    ensures
        final(out)@ == old(out)@ + digits(n as nat, radix),
    decreases n,
{
    let base = radix.base();
    if n >= base {
        push_digits(out, n / base, radix);
    }
    out.append(digit_text(n % base));
}

/// Renders `v` as the display directive asks.
pub fn render(v: i64, formatter: Option<Formatter>) -> (text: String)
    ensures
        text@ == rendering(v, formatter),
{
    let mut text = String::new();
    match formatter {
        None => {
            if v < 0 {
                proof {
                    reveal_strlit("-");
                }
                text.append("-");
                let distance: u64 = if v == i64::MIN {
                    0x8000_0000_0000_0000
                } else {
                    (-v) as u64
                };
                push_digits(&mut text, distance, Radix::Decimal);
            } else {
                push_digits(&mut text, v as u64, Radix::Decimal);
            }
        },
        Some(Formatter::Hex) => {
            proof {
                reveal_strlit("0x");
            }
            text.append("0x");
            push_digits(&mut text, pattern(v), Radix::Hex);
        },
        Some(Formatter::Binary) => {
            proof {
                reveal_strlit("0b");
            }
            text.append("0b");
            push_digits(&mut text, pattern(v), Radix::Binary);
        },
    }
    text
}

/// The 64-bit pattern of `v` as an unsigned number.
fn pattern(v: i64) -> (bits: u64)
    ensures
        bits == twos_complement(v),
{
    if v < 0 {
        // the distance to the least value, moved up by that value's own pattern
        let above_least: u64 = (v - i64::MIN) as u64;
        above_least + 0x8000_0000_0000_0000
    } else {
        v as u64
    }
}

} // verus!
