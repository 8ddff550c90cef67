//! Statistics primitives: mean, population variance and standard deviation
//! over a fixed-point series. Everything above in the crate builds on these.

use vstd::prelude::*;
use crate::fixed::{
    AMOUNT_MAX, div_floor, is_isqrt, isqrt, lemma_div_bounds, lemma_isqrt_exists,
    lemma_mul_bound, sqrt_floor,
};

verus! {

/// A series the primitives accept: fewer than 2^32 entries, every entry a
/// fixed-point value of magnitude at most [`AMOUNT_MAX`].
pub open spec fn series_ok(s: Seq<i128>) -> bool {
    &&& s.len() < 4_294_967_296
    &&& forall|i: int| 0 <= i < s.len() ==> -AMOUNT_MAX <= #[trigger] s[i] <= AMOUNT_MAX
}

/// Sum of a sequence.
pub open spec fn sum_of(s: Seq<i128>) -> int
    decreases s.len(),
{
    if s.len() == 0 {
        0
    } else {
        sum_of(s.drop_last()) + s.last()
    }
}

/// Sum of squared deviations from `m`.
pub open spec fn sq_dev_sum(s: Seq<i128>, m: int) -> int
    decreases s.len(),
{
    if s.len() == 0 {
        0
    } else {
        sq_dev_sum(s.drop_last(), m) + (s.last() - m) * (s.last() - m)
    }
}

/// The mean, with floor division.
pub open spec fn spec_mean(s: Seq<i128>) -> int {
    sum_of(s) / s.len() as int
}

/// Population variance: squared deviations from the mean, divided by the
/// count.
pub open spec fn spec_variance(s: Seq<i128>) -> int {
    sq_dev_sum(s, spec_mean(s)) / s.len() as int
}

/// Standard deviation: the integer square root of the variance.
pub open spec fn spec_std(s: Seq<i128>) -> int {
    sqrt_floor(spec_variance(s))
}

/// A bounded series has a bounded sum.
pub proof fn lemma_sum_of_bounds(s: Seq<i128>, c: int)
    requires
        0 <= c,
        forall|i: int| 0 <= i < s.len() ==> -c <= #[trigger] s[i] <= c,
    ensures
        -(s.len() as int * c) <= sum_of(s) <= s.len() as int * c,
    decreases s.len(),
{
    if s.len() == 0 {
    } else {
        lemma_sum_of_bounds(s.drop_last(), c);
        assert((s.len() as int) * c == (s.len() - 1) as int * c + c) by (nonlinear_arith);
    }
}

/// Squared deviations are non-negative and, for a bounded series and a
/// bounded centre, bounded by `4 c^2` each.
pub proof fn lemma_sq_dev_sum_bounds(s: Seq<i128>, m: int, c: int)
    requires
        0 <= c,
        -c <= m <= c,
        forall|i: int| 0 <= i < s.len() ==> -c <= #[trigger] s[i] <= c,
    ensures
        0 <= sq_dev_sum(s, m) <= s.len() as int * (4 * c * c),
    decreases s.len(),
{
    if s.len() == 0 {
    } else {
        lemma_sq_dev_sum_bounds(s.drop_last(), m, c);
        let d = s.last() - m;
        assert(0 <= d * d <= 4 * c * c) by (nonlinear_arith)
            requires
                -(2 * c) <= d <= 2 * c,
        ;
        assert((s.len() as int) * (4 * c * c) == (s.len() - 1) as int * (4 * c * c) + 4 * c * c)
            by (nonlinear_arith);
    }
}

/// Extending a prefix by one element adds that element to the sum.
pub proof fn lemma_sum_of_take_succ(s: Seq<i128>, i: int)
    requires
        0 <= i < s.len(),
    ensures
        sum_of(s.take(i + 1)) == sum_of(s.take(i)) + s[i],
{
    assert(s.take(i + 1).drop_last() =~= s.take(i));
    assert(s.take(i + 1).last() == s[i]);
}

/// Extending a prefix by one element adds that squared deviation.
pub proof fn lemma_sq_dev_sum_take_succ(s: Seq<i128>, m: int, i: int)
    requires
        0 <= i < s.len(),
    ensures
        sq_dev_sum(s.take(i + 1), m) == sq_dev_sum(s.take(i), m) + (s[i] - m) * (s[i] - m),
{
    assert(s.take(i + 1).drop_last() =~= s.take(i));
    assert(s.take(i + 1).last() == s[i]);
}

/// The mean of a bounded series stays in the same bounds.
pub proof fn lemma_mean_bounds(s: Seq<i128>)
    requires
        series_ok(s),
        s.len() > 0,
    ensures
        -AMOUNT_MAX <= spec_mean(s) <= AMOUNT_MAX,
{
    let n = s.len() as int;
    lemma_sum_of_bounds(s, AMOUNT_MAX as int);
    vstd::arithmetic::div_mod::lemma_div_is_ordered(sum_of(s), n * AMOUNT_MAX, n);
    vstd::arithmetic::div_mod::lemma_div_is_ordered(-(n * AMOUNT_MAX), sum_of(s), n);
    vstd::arithmetic::div_mod::lemma_div_multiples_vanish(AMOUNT_MAX as int, n);
    vstd::arithmetic::div_mod::lemma_div_multiples_vanish(-(AMOUNT_MAX as int), n);
    assert(n * AMOUNT_MAX == AMOUNT_MAX * n) by (nonlinear_arith);
    assert(-(n * AMOUNT_MAX) == n * -(AMOUNT_MAX as int)) by (nonlinear_arith);
    assert(n * -(AMOUNT_MAX as int) == -(AMOUNT_MAX as int) * n) by (nonlinear_arith);
}

/// The variance of a bounded series is non-negative and at most `4 c^2`.
pub proof fn lemma_variance_bounds(s: Seq<i128>)
    requires
        series_ok(s),
        s.len() > 0,
    ensures
        0 <= spec_variance(s) <= 4 * AMOUNT_MAX * AMOUNT_MAX,
{
    let n = s.len() as int;
    let m = spec_mean(s);
    lemma_mean_bounds(s);
    lemma_sq_dev_sum_bounds(s, m, AMOUNT_MAX as int);
    lemma_div_bounds(sq_dev_sum(s, m), n);
    vstd::arithmetic::div_mod::lemma_div_is_ordered(
        sq_dev_sum(s, m),
        n * (4 * AMOUNT_MAX * AMOUNT_MAX),
        n,
    );
    vstd::arithmetic::div_mod::lemma_div_multiples_vanish(4 * AMOUNT_MAX * AMOUNT_MAX, n);
    assert(n * (4 * AMOUNT_MAX * AMOUNT_MAX) == (4 * AMOUNT_MAX * AMOUNT_MAX) * n)
        by (nonlinear_arith);
}

/// Sum of a series.
pub(crate) fn series_sum(data: &Vec<i128>) -> (s: i128)
    requires
        series_ok(data@),
    ensures
        s as int == sum_of(data@),
{
    let mut acc: i128 = 0;
    let mut i: usize = 0;
    proof {
        assert(data@.take(0int) =~= Seq::<i128>::empty());
    }
    while i < data.len()
        invariant
            0 <= i <= data@.len(),
            series_ok(data@),
            acc as int == sum_of(data@.take(i as int)),
            -(i as int * AMOUNT_MAX) <= acc as int <= i as int * AMOUNT_MAX,
        decreases data@.len() - i,
    {
        proof {
            lemma_sum_of_take_succ(data@, i as int);
            assert((i + 1) as int * AMOUNT_MAX == i as int * AMOUNT_MAX + AMOUNT_MAX)
                by (nonlinear_arith);
            assert(i as int * AMOUNT_MAX <= 4_294_967_296int * AMOUNT_MAX) by (nonlinear_arith)
                requires
                    0 <= i as int <= 4_294_967_296int,
            ;
        }
        acc = acc + data[i];
        i = i + 1;
    }
    proof {
        assert(data@.take(data@.len() as int) =~= data@);
    }
    acc
}

/// The mean of a non-empty series. The name is the raw-buffer moving-average
/// entry point of the service's native interface; the buffer edge itself
/// lives outside the verified crate and hands a plain vector in.
pub fn optimize_signals(data: &Vec<i128>) -> (r: i128)
    requires
        series_ok(data@),
        data@.len() > 0,
    ensures
        r as int == spec_mean(data@),
        -AMOUNT_MAX <= r <= AMOUNT_MAX,
{
    let s = series_sum(data);
    let n = data.len() as i128;
    proof {
        lemma_mean_bounds(data@);
    }
    div_floor(s, n)
}

/// Population variance of a non-empty series.
pub fn variance(data: &Vec<i128>) -> (r: i128)
    requires
        series_ok(data@),
        data@.len() > 0,
    ensures
        r as int == spec_variance(data@),
        0 <= r <= 4 * AMOUNT_MAX * AMOUNT_MAX,
{
    let m = optimize_signals(data);
    let mut acc: i128 = 0;
    let mut i: usize = 0;
    proof {
        assert(data@.take(0int) =~= Seq::<i128>::empty());
    }
    while i < data.len()
        invariant
            0 <= i <= data@.len(),
            series_ok(data@),
            m as int == spec_mean(data@),
            -AMOUNT_MAX <= m <= AMOUNT_MAX,
            acc as int == sq_dev_sum(data@.take(i as int), m as int),
            0 <= acc as int <= i as int * (4 * AMOUNT_MAX * AMOUNT_MAX),
        decreases data@.len() - i,
    {
        proof {
            lemma_sq_dev_sum_take_succ(data@, m as int, i as int);
            let d = data@[i as int] - m;
            assert(0 <= d * d <= 4 * AMOUNT_MAX * AMOUNT_MAX) by (nonlinear_arith)
                requires
                    -(2 * AMOUNT_MAX) <= d <= 2 * AMOUNT_MAX,
            ;
            assert((i + 1) as int * (4 * AMOUNT_MAX * AMOUNT_MAX) == i as int * (4 * AMOUNT_MAX
                * AMOUNT_MAX) + 4 * AMOUNT_MAX * AMOUNT_MAX) by (nonlinear_arith);
            assert(i as int * (4 * AMOUNT_MAX * AMOUNT_MAX) <= 4_294_967_296int * (4 * AMOUNT_MAX
                * AMOUNT_MAX)) by (nonlinear_arith)
                requires
                    0 <= i as int <= 4_294_967_296int,
            ;
        }
        let d = data[i] - m;
        acc = acc + d * d;
        i = i + 1;
    }
    proof {
        assert(data@.take(data@.len() as int) =~= data@);
        lemma_div_bounds(acc as int, data@.len() as int);
        lemma_variance_bounds(data@);
    }
    div_floor(acc, data.len() as i128)
}

/// Standard deviation of a non-empty series: the integer square root of the
/// variance.
pub fn standard_deviation(data: &Vec<i128>) -> (r: i128)
    requires
        series_ok(data@),
        data@.len() > 0,
    ensures
        r as int == spec_std(data@),
        is_isqrt(spec_variance(data@), r as int),
        0 <= r <= 2 * AMOUNT_MAX,
        (r == 0) == (spec_variance(data@) == 0),
{
    let v = variance(data);
    let r = isqrt(v);
    proof {
        assert(r as int <= 2 * AMOUNT_MAX) by (nonlinear_arith)
            requires
                is_isqrt(v as int, r as int),
                v as int <= 4 * AMOUNT_MAX * AMOUNT_MAX,
                AMOUNT_MAX == 1_000_000_000_000i128,
        ;
        assert((r as int == 0) == (v as int == 0)) by (nonlinear_arith)
            requires
                is_isqrt(v as int, r as int),
        ;
    }
    r
}

/// The standard deviation squares back to the variance up to the
/// integer-square-root rounding: `sd^2 <= var < (sd + 1)^2`.
pub proof fn lemma_std_dev_squares_to_variance(xs: Seq<i128>)
    requires
        series_ok(xs),
        xs.len() > 0,
    ensures
        spec_std(xs) * spec_std(xs) <= spec_variance(xs),
        spec_variance(xs) < (spec_std(xs) + 1) * (spec_std(xs) + 1),
        0 <= spec_std(xs),
{
    lemma_variance_bounds(xs);
    lemma_isqrt_exists(spec_variance(xs));
}

} // verus!
