//! Verified rendering of fixed-point fractions as percentage text with two
//! decimal places, used by the trade-admission rejection reasons.
//!
//! A fixed-point fraction `x` (scaled by 10_000) is worth `x / 100` whole
//! percent plus `x % 100` hundredths of a percent, so the rendering is an
//! exact digit split with no rounding at all.

use vstd::prelude::*;
use vstd::string::StringExecFns;
use crate::fixed::lemma_div_bounds;

verus! {

/// The decimal digit character for `d`.
pub open spec fn digit_char(d: int) -> char {
    if d == 0 {
        '0'
    } else if d == 1 {
        '1'
    } else if d == 2 {
        '2'
    } else if d == 3 {
        '3'
    } else if d == 4 {
        '4'
    } else if d == 5 {
        '5'
    } else if d == 6 {
        '6'
    } else if d == 7 {
        '7'
    } else if d == 8 {
        '8'
    } else {
        '9'
    }
}

/// Decimal digits of a non-negative integer, most significant first.
pub open spec fn dec_digits(n: int) -> Seq<char>
    decreases n,
{
    if n < 10 {
        seq![digit_char(n)]
    } else {
        dec_digits(n / 10) + seq![digit_char(n % 10)]
    }
}

/// A non-negative fixed-point fraction rendered as a percentage with two
/// decimals: whole percent digits, a point, then the two hundredths digits.
pub open spec fn pct_digits_nonneg(x: int) -> Seq<char> {
    dec_digits(x / 100) + seq!['.', digit_char((x % 100) / 10), digit_char((x % 100) % 10)]
}

/// A fixed-point fraction rendered as a percentage with two decimals, with
/// a leading minus sign when negative.
pub open spec fn pct_digits(x: int) -> Seq<char> {
    if x < 0 {
        seq!['-'] + pct_digits_nonneg(-x)
    } else {
        pct_digits_nonneg(x)
    }
}

/// The one-character string for a decimal digit.
fn digit_str(d: u128) -> (r: &'static str)
    requires
        d < 10,
    ensures
        r@ =~= seq![digit_char(d as int)],
{
    let r: &'static str = if d == 0 {
        "0"
    } else if d == 1 {
        "1"
    } else if d == 2 {
        "2"
    } else if d == 3 {
        "3"
    } else if d == 4 {
        "4"
    } else if d == 5 {
        "5"
    } else if d == 6 {
        "6"
    } else if d == 7 {
        "7"
    } else if d == 8 {
        "8"
    } else {
        "9"
    };
    proof {
        reveal_strlit("0");
        reveal_strlit("1");
        reveal_strlit("2");
        reveal_strlit("3");
        reveal_strlit("4");
        reveal_strlit("5");
        reveal_strlit("6");
        reveal_strlit("7");
        reveal_strlit("8");
        reveal_strlit("9");
    }
    r
}

/// Append the decimal digits of `n` to `s`.
fn push_decimal(s: &mut String, n: u128)
    ensures
        final(s)@ == old(s)@ + dec_digits(n as int),
    decreases n,
{
    if n < 10 {
        s.append(digit_str(n));
    } else {
        proof {
            vstd::arithmetic::div_mod::lemma_div_decreases(n as int, 10);
            lemma_div_bounds(n as int, 10);
        }
        let ghost mid = s@ + dec_digits(n as int / 10);
        push_decimal(s, n / 10);
        s.append(digit_str(n % 10));
        proof {
            assert(mid + seq![digit_char(n as int % 10)] =~= old(s)@ + dec_digits(n as int));
        }
    }
}

/// Render a fixed-point fraction as a percentage with two decimals.
pub fn format_pct(x: i128) -> (r: String)
    requires
        x > i128::MIN,
    ensures
        r@ == pct_digits(x as int),
{
    let mut s = String::new();
    let y: u128;
    if x < 0 {
        s.append("-");
        y = (-x) as u128;
        proof {
            reveal_strlit("-");
            assert(s@ =~= seq!['-']);
        }
    } else {
        y = x as u128;
    }
    let ghost start = s@;
    proof {
        lemma_div_bounds(y as int, 100);
        vstd::arithmetic::div_mod::lemma_mod_division_less_than_divisor(y as int, 100);
        vstd::arithmetic::div_mod::lemma_mod_division_less_than_divisor(y as int % 100, 10);
        lemma_div_bounds(y as int % 100, 10);
    }
    push_decimal(&mut s, y / 100);
    s.append(".");
    s.append(digit_str((y % 100) / 10));
    s.append(digit_str((y % 100) % 10));
    proof {
        reveal_strlit(".");
        assert(start + dec_digits(y as int / 100) + "."@ + seq![
            digit_char((y as int % 100) / 10),
        ] + seq![digit_char((y as int % 100) % 10)] =~= start + pct_digits_nonneg(y as int));
        if x < 0 {
            assert(seq!['-'] + pct_digits_nonneg(y as int) =~= pct_digits(x as int));
        }
    }
    s
}

} // verus!
