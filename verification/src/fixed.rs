//! The fixed-point number model and the arithmetic helpers every other
//! module builds on.
//!
//! A fractional value `x` is stored as the integer `x * SCALE`, so `1.0` is
//! `10_000` and `0.08` is `800`. A product of two stored values is scaled by
//! `SCALE * SCALE`; dividing by `SCALE` brings it back. Division always
//! rounds toward negative infinity (floor), which for the non-negative
//! numerators used by most formulas coincides with plain integer division.

use vstd::prelude::*;

verus! {

/// Number of fixed-point units per whole unit: four decimal places.
pub const SCALE: i128 = 10_000;

/// `SCALE * SCALE`, the scale of a product of two fixed-point values.
pub const SCALE_SQ: i128 = 100_000_000;

/// Largest magnitude accepted for a stored quantity, price, portfolio
/// value, equity point or return: 10^8 whole units. Keeping inputs inside
/// this range lets every intermediate product stay inside `i128`.
pub const AMOUNT_MAX: i128 = 1_000_000_000_000;

/// Largest magnitude accepted for a stress shock fraction: 10.0, that is a
/// 1000% price move either way.
pub const SHOCK_MAX: i128 = 100_000;

/// Largest accepted number of positions in one portfolio.
pub const MAX_POSITIONS: usize = 1_000_000;

/// Hard cap on Monte Carlo iteration counts.
pub const MAX_ITERATIONS: usize = 1_000_000;

/// Default confidence level: 0.99.
pub const DEFAULT_CONFIDENCE: i128 = 9_900;

/// Largest exposure ratio the engine itself can produce
/// (`MAX_POSITIONS * AMOUNT_MAX * AMOUNT_MAX / SCALE_SQ * SCALE`, rounded up
/// to a round power of ten).
pub const RATIO_MAX: i128 = 1_000_000_000_000_000_000_000_000_000_000;

/// Floor division and the bounds of its result, packaged for reuse.
pub proof fn lemma_div_bounds(a: int, b: int)
    requires
        1 <= b,
    ensures
        a >= 0 ==> 0 <= a / b <= a,
        a < 0 ==> a <= a / b <= 0,
{
    vstd::arithmetic::div_mod::lemma_fundamental_div_mod(a, b);
    vstd::arithmetic::div_mod::lemma_mod_division_less_than_divisor(a, b);
    let q = a / b;
    let r = a % b;
    assert(a >= 0 ==> 0 <= q <= a) by (nonlinear_arith)
        requires
            a == b * q + r,
            0 <= r < b,
            1 <= b,
    ;
    assert(a < 0 ==> a <= q <= 0) by (nonlinear_arith)
        requires
            a == b * q + r,
            0 <= r < b,
            1 <= b,
    ;
}

/// If the factors are bounded, so is the product.
pub proof fn lemma_mul_bound(a: int, b: int, ca: int, cb: int)
    by (nonlinear_arith)
    requires
        -ca <= a <= ca,
        -cb <= b <= cb,
    ensures
        -(ca * cb) <= a * b <= ca * cb,
{
}

/// Floor division of `a` by a positive `b`, exactly the `/` of
/// specification arithmetic.
pub fn div_floor(a: i128, b: i128) -> (r: i128)
    requires
        0 < b,
    ensures
        r as int == a as int / b as int,
{
    proof {
        lemma_div_bounds(a as int, b as int);
    }
    a.checked_div_euclid(b).unwrap()
}

/// `r` is the integer square root of `v`.
pub open spec fn is_isqrt(v: int, r: int) -> bool {
    0 <= r && r * r <= v && v < (r + 1) * (r + 1)
}

/// The integer square root as a specification-level function; it is the
/// unique witness of [`is_isqrt`].
pub open spec fn sqrt_floor(v: int) -> int {
    choose|r: int| is_isqrt(v, r)
}

/// Two integer square roots of the same value are equal.
pub proof fn lemma_isqrt_unique(v: int, r1: int, r2: int)
    by (nonlinear_arith)
    requires
        is_isqrt(v, r1),
        is_isqrt(v, r2),
    ensures
        r1 == r2,
{
}

/// Every non-negative integer has an integer square root.
pub proof fn lemma_isqrt_exists(v: int)
    requires
        0 <= v,
    ensures
        is_isqrt(v, sqrt_floor(v)),
    decreases v,
{
    if v == 0 {
        assert(is_isqrt(0, 0));
    } else {
        lemma_isqrt_exists(v - 1);
        let p = sqrt_floor(v - 1);
        if (p + 1) * (p + 1) == v {
            assert(is_isqrt(v, p + 1)) by (nonlinear_arith)
                requires
                    is_isqrt(v - 1, p),
                    (p + 1) * (p + 1) == v,
            ;
        } else {
            assert(is_isqrt(v, p)) by (nonlinear_arith)
                requires
                    is_isqrt(v - 1, p),
                    (p + 1) * (p + 1) != v,
                    1 <= v,
            ;
        }
    }
    let w = choose|r: int| is_isqrt(v, r);
    assert(is_isqrt(v, w));
    lemma_isqrt_unique(v, w, sqrt_floor(v));
}

/// The integer square root, computed by binary search.
pub fn isqrt(v: i128) -> (r: i128)
    requires
        0 <= v,
    ensures
        is_isqrt(v as int, r as int),
        r as int == sqrt_floor(v as int),
{
    let vu: u128 = v as u128;
    let mut lo: u128 = 0;
    let mut hi: u128 = 0x1_0000_0000_0000_0000;
    proof {
        assert((hi as int) * (hi as int) > vu as int);
    }
    while lo + 1 < hi
        invariant
            0 <= lo < hi <= 0x1_0000_0000_0000_0000u128,
            (lo as int) * (lo as int) <= vu as int,
            (vu as int) < (hi as int) * (hi as int),
            vu as int == v as int,
        decreases hi - lo,
    {
        let mid: u128 = lo + (hi - lo) / 2;
        proof {
            assert(lo < mid < hi);
            assert((mid as int) * (mid as int) < 0xffff_ffff_ffff_ffff_ffff_ffff_ffff_ffffint)
                by (nonlinear_arith)
                requires
                    mid < 0x1_0000_0000_0000_0000u128,
            ;
        }
        if mid * mid <= vu {
            lo = mid;
        } else {
            hi = mid;
        }
    }
    proof {
        assert(hi == lo + 1);
        assert(is_isqrt(v as int, lo as int));
        lemma_isqrt_exists(v as int);
        lemma_isqrt_unique(v as int, lo as int, sqrt_floor(v as int));
    }
    lo as i128
}

} // verus!
