//! Monte Carlo Value-at-Risk: fit a return distribution, draw samples from
//! a pseudo-random source, sort them and read the loss quantile and its
//! tail average.
//!
//! The sampling method is fixed and documented: one normal variate is the
//! Irwin-Hall sum of twelve uniform fixed-point draws (each a 64-bit value
//! reduced modulo [`SCALE`]) minus six, scaled by the fitted standard
//! deviation and shifted by the fitted mean. Given a seed, the whole
//! computation is a pure function of the inputs; without one, the source is
//! seeded from operating-system entropy and only the bounds below hold.

use vstd::prelude::*;
use vstd::relations::{sorted_by, total_ordering};
use vstd::seq_lib::lemma_sorted_unique;
use vstd::seq_lib::lemma_multiset_commutative;
use vstd::multiset::Multiset;
use vstd::string::StringExecFns;
use crate::fixed::{
    AMOUNT_MAX, MAX_ITERATIONS, SCALE, div_floor, isqrt, lemma_div_bounds, lemma_mul_bound,
    sqrt_floor,
};
use crate::stats::{series_ok, spec_mean, spec_variance, optimize_signals, variance};
use crate::rng::{RandomSource, draw_u64, source_from_entropy, source_from_seed, stream_of_seed};

verus! {

/// Largest magnitude of one normal sample:
/// `AMOUNT_MAX + 6 * (2 * AMOUNT_MAX)`.
pub const SAMPLE_MAX: i128 = 13_000_000_000_000;

/// One uniform fixed-point draw in `[0, 1)`: a raw 64-bit value reduced
/// modulo [`SCALE`].
pub open spec fn unit_draw(u: u64) -> int {
    u as int % SCALE as int
}

/// The sum of the first `k` of twelve uniform draws of one sample, taken
/// from the seeded stream starting at `base`.
pub open spec fn z_sum(seed: u64, base: int, k: nat) -> int
    decreases k,
{
    if k == 0 {
        0
    } else {
        z_sum(seed, base, (k - 1) as nat) + unit_draw(stream_of_seed(seed, base + k - 1))
    }
}

/// One normal sample by the Irwin-Hall method: the fitted mean plus the
/// fitted standard deviation times the centred sum of twelve uniforms.
pub open spec fn spec_sample(seed: u64, base: int, mean: int, std: int) -> int {
    mean + std * (z_sum(seed, base, 12) - 6 * SCALE) / SCALE as int
}

/// The full sample vector drawn for a seeded run of `n` iterations.
pub open spec fn samples_seq(seed: u64, n: int, mean: int, std: int) -> Seq<i128> {
    Seq::new(n as nat, |i: int| spec_sample(seed, 12 * i, mean, std) as i128)
}

/// The ascending order on samples.
pub open spec fn i128_le() -> spec_fn(i128, i128) -> bool {
    |a: i128, b: i128| a <= b
}

/// The index of the loss quantile: `floor((1 - confidence) * iterations)`.
pub open spec fn spec_var_index(confidence: int, iterations: int) -> int {
    (SCALE as int - confidence) * iterations / SCALE as int
}

/// The VaR read off the sorted samples: the loss magnitude at the quantile
/// index, zero for a non-negative sample there or an out-of-range index.
pub open spec fn spec_var_of(sorted: Seq<i128>, k: int) -> int {
    if 0 <= k < sorted.len() {
        if sorted[k] < 0 {
            -(sorted[k] as int)
        } else {
            0
        }
    } else {
        0
    }
}

/// Sum of the entries at most `bound` among the first `n`.
pub open spec fn tail_sum(s: Seq<i128>, n: int, bound: int) -> int
    decreases n,
{
    if n <= 0 {
        0
    } else {
        tail_sum(s, n - 1, bound) + if s[n - 1] <= bound {
            s[n - 1] as int
        } else {
            0
        }
    }
}

/// Count of the entries at most `bound` among the first `n`.
pub open spec fn tail_cnt(s: Seq<i128>, n: int, bound: int) -> int
    decreases n,
{
    if n <= 0 {
        0
    } else {
        tail_cnt(s, n - 1, bound) + if s[n - 1] <= bound {
            1int
        } else {
            0
        }
    }
}

/// The CVaR read off the sorted samples: minus the average of the first
/// `k + 1` samples at most `-var`, or `var * 1.3` when no sample qualifies.
pub open spec fn spec_cvar_of(sorted: Seq<i128>, k: int, var: int) -> int {
    let cnt = tail_cnt(sorted, k + 1, -var);
    if cnt > 0 {
        (-tail_sum(sorted, k + 1, -var)) / cnt
    } else {
        var * 13000 / SCALE as int
    }
}

/// The whole seeded Monte Carlo computation as one function of its inputs.
pub open spec fn spec_mc(rets: Seq<i128>, iterations: int, confidence: int, seed: u64) -> (
    int,
    int,
) {
    if rets.len() == 0 || iterations == 0 {
        (0, 0)
    } else if spec_variance(rets) == 0 {
        (0, 0)
    } else {
        let mean = spec_mean(rets);
        let std = sqrt_floor(spec_variance(rets));
        let sorted = samples_seq(seed, iterations, mean, std).sort_by(i128_le());
        let k = spec_var_index(confidence, iterations);
        let var = spec_var_of(sorted, k);
        (var, spec_cvar_of(sorted, k, var))
    }
}

/// The ascending order on `i128` is a total ordering.
pub proof fn lemma_i128_le_total()
    ensures
        total_ordering(i128_le()),
{
    let leq = i128_le();
    assert forall|x: i128| #[trigger] leq(x, x) by {}
    assert forall|x: i128, y: i128, z: i128| #[trigger] leq(x, y) && #[trigger] leq(y, z) implies leq(
        x,
        z,
    ) by {}
    assert forall|x: i128, y: i128| #[trigger] leq(x, y) && leq(y, x) implies x == y by {}
    assert forall|x: i128, y: i128| !(#[trigger] leq(x, y)) implies leq(y, x) by {}
}

/// Draw one normal sample. For a seeded source the value is exactly
/// [`spec_sample`] at the source's current position.
fn draw_sample(rng: &mut RandomSource, mean: i128, std: i128) -> (s: i128)
    requires
        -AMOUNT_MAX <= mean <= AMOUNT_MAX,
        0 <= std <= 2 * AMOUNT_MAX,
    ensures
        final(rng).provenance() == old(rng).provenance(),
        final(rng).drawn() == old(rng).drawn() + 12,
        old(rng).provenance() matches Some(seed) ==> s as int == spec_sample(
            seed,
            old(rng).drawn(),
            mean as int,
            std as int,
        ),
        -SAMPLE_MAX <= s <= SAMPLE_MAX,
{
    let mut acc: i128 = 0;
    let mut j: usize = 0;
    while j < 12
        invariant
            0 <= j <= 12,
            -AMOUNT_MAX <= mean <= AMOUNT_MAX,
            0 <= std <= 2 * AMOUNT_MAX,
            rng.provenance() == old(rng).provenance(),
            rng.drawn() == old(rng).drawn() + j,
            0 <= acc <= j as int * (SCALE - 1),
            old(rng).provenance() matches Some(seed) ==> acc as int == z_sum(
                seed,
                old(rng).drawn(),
                j as nat,
            ),
        decreases 12 - j,
    {
        let u = draw_u64(rng);
        proof {
            vstd::arithmetic::div_mod::lemma_mod_division_less_than_divisor(u as int, 10000);
            assert((j + 1) as int * (SCALE - 1) == j as int * (SCALE - 1) + (SCALE - 1))
                by (nonlinear_arith);
            assert(j as int * (SCALE - 1) <= 12 * (SCALE - 1)) by (nonlinear_arith)
                requires
                    0 <= j as int <= 12,
            ;
        }
        let d = (u % 10000) as i128;
        acc = acc + d;
        j = j + 1;
    }
    let z = acc - 6 * SCALE;
    proof {
        lemma_mul_bound(std as int, z as int, 2 * AMOUNT_MAX, 6 * SCALE as int);
        lemma_div_bounds(std as int * z as int, SCALE as int);
        vstd::arithmetic::div_mod::lemma_div_is_ordered(
            std as int * z as int,
            6 * SCALE as int * (2 * AMOUNT_MAX),
            SCALE as int,
        );
        vstd::arithmetic::div_mod::lemma_div_is_ordered(
            -(6 * SCALE as int * (2 * AMOUNT_MAX)),
            std as int * z as int,
            SCALE as int,
        );
        assert(6 * SCALE as int * (2 * AMOUNT_MAX) / SCALE as int == 12 * AMOUNT_MAX);
        assert(-(6 * SCALE as int * (2 * AMOUNT_MAX)) / SCALE as int == -(12 * AMOUNT_MAX));
    }
    mean + div_floor(std * z, SCALE)
}

/// Draw `n` normal samples. For a seeded source, sample `i` is exactly
/// [`spec_sample`] at stream offset `12 i`.
fn draw_samples(rng: &mut RandomSource, n: usize, mean: i128, std: i128) -> (v: Vec<i128>)
    requires
        -AMOUNT_MAX <= mean <= AMOUNT_MAX,
        0 <= std <= 2 * AMOUNT_MAX,
        old(rng).drawn() == 0,
    ensures
        v@.len() == n,
        final(rng).provenance() == old(rng).provenance(),
        forall|i: int| 0 <= i < n ==> -SAMPLE_MAX <= #[trigger] v@[i] <= SAMPLE_MAX,
        old(rng).provenance() matches Some(seed) ==> v@ =~= samples_seq(
            seed,
            n as int,
            mean as int,
            std as int,
        ),
{
    let mut v: Vec<i128> = Vec::new();
    let mut i: usize = 0;
    while i < n
        invariant
            0 <= i <= n,
            -AMOUNT_MAX <= mean <= AMOUNT_MAX,
            0 <= std <= 2 * AMOUNT_MAX,
            v@.len() == i,
            rng.provenance() == old(rng).provenance(),
            rng.drawn() == 12 * i,
            forall|j: int| 0 <= j < i ==> -SAMPLE_MAX <= #[trigger] v@[j] <= SAMPLE_MAX,
            old(rng).provenance() matches Some(seed) ==> forall|j: int|
                0 <= j < i ==> #[trigger] v@[j] as int == spec_sample(
                    seed,
                    12 * j,
                    mean as int,
                    std as int,
                ),
        decreases n - i,
    {
        let s = draw_sample(rng, mean, std);
        v.push(s);
        i = i + 1;
    }
    proof {
        if old(rng).provenance() is Some {
            let seed = old(rng).provenance()->0;
            assert(v@ =~= samples_seq(seed, n as int, mean as int, std as int));
        }
    }
    v
}

/// Inserting an element anywhere adds exactly it to the multiset.
proof fn lemma_insert_multiset(s: Seq<i128>, k: int, x: i128)
    requires
        0 <= k <= s.len(),
    ensures
        s.insert(k, x).to_multiset() == s.to_multiset().insert(x),
{
    broadcast use vstd::seq_lib::group_to_multiset_ensures;

    assert(s.insert(k, x) =~= s.take(k) + (seq![x] + s.skip(k)));
    lemma_multiset_commutative(s.take(k), seq![x] + s.skip(k));
    lemma_multiset_commutative(seq![x], s.skip(k));
    assert(s =~= s.take(k) + s.skip(k));
    lemma_multiset_commutative(s.take(k), s.skip(k));
    assert(seq![x] =~= Seq::<i128>::empty().push(x));
    assert(seq![x].to_multiset() =~= Multiset::<i128>::empty().insert(x));
    assert(s.insert(k, x).to_multiset() =~= s.to_multiset().insert(x));
}

/// Sort the samples ascending by repeated ordered insertion.
fn sort_samples(input: Vec<i128>) -> (out: Vec<i128>)
    ensures
        out@ == input@.sort_by(i128_le()),
        sorted_by(out@, i128_le()),
        out@.to_multiset() == input@.to_multiset(),
        out@.len() == input@.len(),
{
    broadcast use vstd::seq_lib::group_to_multiset_ensures;

    let mut out: Vec<i128> = Vec::new();
    let mut i: usize = 0;
    proof {
        assert(input@.take(0int) =~= Seq::<i128>::empty());
        assert(Seq::<i128>::empty().to_multiset() =~= out@.to_multiset());
    }
    while i < input.len()
        invariant
            0 <= i <= input@.len(),
            out@.len() == i,
            sorted_by(out@, i128_le()),
            out@.to_multiset() == input@.take(i as int).to_multiset(),
        decreases input@.len() - i,
    {
        let x = input[i];
        let mut k: usize = 0;
        while k < out.len() && out[k] <= x
            invariant
                0 <= k <= out@.len(),
                forall|j: int| 0 <= j < k ==> #[trigger] out@[j] <= x,
            decreases out@.len() - k,
        {
            k = k + 1;
        }
        let ghost prev = out@;
        out.insert(k, x);
        proof {
            assert forall|a: int, b: int|
                0 <= a < b < out@.len() implies #[trigger] i128_le()(out@[a], out@[b]) by {
                if b < k {
                    assert(out@[a] == prev[a] && out@[b] == prev[b]);
                    assert(sorted_by(prev, i128_le()));
                } else if a > k {
                    assert(out@[a] == prev[a - 1] && out@[b] == prev[b - 1]);
                } else if b == k {
                    assert(out@[a] == prev[a] && prev[a] <= x);
                } else if a == k {
                    assert(out@[b] == prev[b - 1]);
                    assert(b - 1 >= k);
                    if k < prev.len() {
                        assert(!(prev[k as int] <= x));
                        assert(i128_le()(prev[k as int], prev[b - 1]) || b - 1 == k);
                    }
                } else {
                    assert(a < k && b > k);
                    assert(out@[a] == prev[a] && out@[b] == prev[b - 1]);
                    assert(prev[a] <= x);
                    if k < prev.len() && b - 1 > k {
                        assert(i128_le()(prev[k as int], prev[b - 1]));
                    }
                }
            }
            lemma_insert_multiset(prev, k as int, x);
            assert(input@.take(i as int + 1) =~= input@.take(i as int).push(input@[i as int]));
            assert(input@.take(i as int + 1).to_multiset() == input@.take(
                i as int,
            ).push(input@[i as int]).to_multiset());
            vstd::seq_lib::to_multiset_build(input@.take(i as int), input@[i as int]);
            assert(out@.to_multiset() == input@.take(i as int + 1).to_multiset());
        }
        i = i + 1;
    }
    proof {
        assert(input@.take(input@.len() as int) =~= input@);
        input@.lemma_sort_by_ensures(i128_le());
        lemma_i128_le_total();
        lemma_sorted_unique(out@, input@.sort_by(i128_le()), i128_le());
        assert(out@ =~= input@.sort_by(i128_le()));
    }
    out
}

/// Elements of a multiset-equal sequence respect the same bound.
proof fn lemma_multiset_elems_bounded(a: Seq<i128>, b: Seq<i128>, c: int)
    requires
        a.to_multiset() == b.to_multiset(),
        forall|i: int| 0 <= i < b.len() ==> -c <= #[trigger] b[i] <= c,
    ensures
        forall|i: int| 0 <= i < a.len() ==> -c <= #[trigger] a[i] <= c,
{
    broadcast use vstd::seq_lib::group_to_multiset_ensures;

    assert forall|i: int| 0 <= i < a.len() implies -c <= #[trigger] a[i] <= c by {
        assert(a.contains(a[i]));
        assert(a.to_multiset().count(a[i]) > 0);
        assert(b.contains(a[i]));
        let j = choose|j: int| 0 <= j < b.len() && b[j] == a[i];
        assert(-c <= b[j] <= c);
    }
}

/// The tail sum is at most the bound times the tail count, and the count
/// stays within `[0, n]`.
proof fn lemma_tail_bounds(s: Seq<i128>, n: int, bound: int, c: int)
    requires
        n <= s.len(),
        0 <= c,
        forall|i: int| 0 <= i < s.len() ==> -c <= #[trigger] s[i] <= c,
    ensures
        0 <= tail_cnt(s, n, bound) <= vstd::math::max(n, 0),
        tail_sum(s, n, bound) <= bound * tail_cnt(s, n, bound),
        -(vstd::math::max(n, 0) * c) <= tail_sum(s, n, bound) <= vstd::math::max(n, 0) * c,
    decreases n,
{
    if n <= 0 {
    } else {
        lemma_tail_bounds(s, n - 1, bound, c);
        let pc = tail_cnt(s, n - 1, bound);
        let ps = tail_sum(s, n - 1, bound);
        if s[n - 1] <= bound {
            assert(ps + s[n - 1] <= bound * pc + bound) by (nonlinear_arith)
                requires
                    ps <= bound * pc,
                    s[n - 1] <= bound,
            ;
            assert(bound * pc + bound == bound * (pc + 1)) by (nonlinear_arith);
        }
        assert(vstd::math::max(n, 0) * c == vstd::math::max(n - 1, 0) * c + c) by (nonlinear_arith)
            requires
                n >= 1,
        ;
    }
}

/// Compute VaR and CVaR from a drawn sample vector: sort ascending, read
/// the loss quantile at `floor((1 - confidence) * n)`, then average the
/// tail at most `-var` among the first `k + 1` samples (falling back to
/// `var * 1.3` when that tail is empty). This is the whole computation that
/// follows the random draws, verified for every sample vector.
pub fn mc_from_samples(samples: Vec<i128>, confidence: i128) -> (r: (i128, i128))
    requires
        1 <= samples@.len() <= MAX_ITERATIONS,
        5000 <= confidence <= 9990,
        forall|i: int| 0 <= i < samples@.len() ==> -SAMPLE_MAX <= #[trigger] samples@[i]
            <= SAMPLE_MAX,
    ensures
        r.0 as int == spec_var_of(
            samples@.sort_by(i128_le()),
            spec_var_index(confidence as int, samples@.len() as int),
        ),
        r.1 as int == spec_cvar_of(
            samples@.sort_by(i128_le()),
            spec_var_index(confidence as int, samples@.len() as int),
            r.0 as int,
        ),
        0 <= r.0 <= r.1,
        r.0 <= SAMPLE_MAX,
{
    let n = samples.len();
    let ghost input = samples@;
    let sorted = sort_samples(samples);
    proof {
        lemma_multiset_elems_bounded(sorted@, input, SAMPLE_MAX as int);
        assert((SCALE - confidence) as int * n as int >= 0) by (nonlinear_arith)
            requires
                confidence <= SCALE,
                n >= 1,
        ;
        vstd::arithmetic::div_mod::lemma_div_pos_is_pos(
            (SCALE - confidence) as int * n as int,
            SCALE as int,
        );
        assert(((SCALE - confidence) as int) * (n as int) < (n as int) * (SCALE as int))
            by (nonlinear_arith)
            requires
                confidence >= 5000,
                n >= 1,
                SCALE == 10_000i128,
        ;
        vstd::arithmetic::div_mod::lemma_multiply_divide_lt(
            (SCALE - confidence) as int * n as int,
            n as int,
            SCALE as int,
        );
        lemma_mul_bound((SCALE - confidence) as int, n as int, 5000, MAX_ITERATIONS as int);
    }
    let k_fp = div_floor((SCALE - confidence) * (n as i128), SCALE);
    let k = k_fp as usize;
    let sk = sorted[k];
    let var: i128 = if sk < 0 {
        -sk
    } else {
        0
    };
    let mut sum: i128 = 0;
    let mut cnt: i128 = 0;
    let mut i: usize = 0;
    proof {
        lemma_tail_bounds(sorted@, k as int + 1, -(var as int), SAMPLE_MAX as int);
    }
    while i < k + 1
        invariant
            0 <= i <= k + 1,
            k < sorted@.len() <= MAX_ITERATIONS,
            -SAMPLE_MAX <= var <= SAMPLE_MAX,
            forall|j: int| 0 <= j < sorted@.len() ==> -SAMPLE_MAX <= #[trigger] sorted@[j]
                <= SAMPLE_MAX,
            sum as int == tail_sum(sorted@, i as int, -(var as int)),
            cnt as int == tail_cnt(sorted@, i as int, -(var as int)),
            0 <= cnt <= i,
            -(i as int * SAMPLE_MAX) <= sum as int <= i as int * SAMPLE_MAX,
        decreases k + 1 - i,
    {
        proof {
            assert((i + 1) as int * SAMPLE_MAX == i as int * SAMPLE_MAX + SAMPLE_MAX)
                by (nonlinear_arith);
            assert(i as int * SAMPLE_MAX <= 1_000_000int * SAMPLE_MAX) by (nonlinear_arith)
                requires
                    0 <= i as int <= 1_000_000int,
            ;
        }
        let v = sorted[i];
        if v <= -var {
            sum = sum + v;
            cnt = cnt + 1;
        }
        i = i + 1;
    }
    let cvar: i128;
    if cnt > 0 {
        proof {
            lemma_tail_bounds(sorted@, k as int + 1, -(var as int), SAMPLE_MAX as int);
            assert(sum as int <= -(var as int) * cnt as int);
            assert(-(-(var as int) * cnt as int) == var as int * cnt as int) by (nonlinear_arith);
            assert(var as int * cnt as int <= -(sum as int));
            lemma_div_bounds(-(sum as int), cnt as int);
            vstd::arithmetic::div_mod::lemma_div_is_ordered(
                var as int * cnt as int,
                -(sum as int),
                cnt as int,
            );
            vstd::arithmetic::div_mod::lemma_div_multiples_vanish(var as int, cnt as int);
            assert(var as int * cnt as int == cnt as int * var as int) by (nonlinear_arith);
        }
        cvar = div_floor(-sum, cnt);
    } else {
        proof {
            lemma_mul_bound(var as int, 13000, SAMPLE_MAX as int, 13000);
            lemma_div_bounds(var as int * 13000, SCALE as int);
            assert(var as int * 13000 >= var as int * 10000) by (nonlinear_arith)
                requires
                    var >= 0,
            ;
            vstd::arithmetic::div_mod::lemma_div_is_ordered(
                var as int * 10000,
                var as int * 13000,
                SCALE as int,
            );
            vstd::arithmetic::div_mod::lemma_div_multiples_vanish(var as int, SCALE as int);
            assert(var as int * 10000 == SCALE as int * var as int) by (nonlinear_arith);
        }
        cvar = div_floor(var * 13000, SCALE);
    }
    (var, cvar)
}

/// Monte Carlo VaR and CVaR over a historical return series. Empty series,
/// zero iterations or a zero-variance fit short-circuit to `(0, 0)`. With a
/// seed the result is exactly [`spec_mc`] of the inputs; without one, only
/// `0 <= var <= cvar` is promised of the outcome.
pub fn monte_carlo_var(
    rets: &Vec<i128>,
    iterations: usize,
    confidence: i128,
    seed: Option<u64>,
) -> (r: (i128, i128))
    requires
        series_ok(rets@),
        iterations <= MAX_ITERATIONS,
        5000 <= confidence <= 9990,
    ensures
        0 <= r.0 <= r.1,
        (rets@.len() == 0 || iterations == 0) ==> r == (0i128, 0i128),
        (rets@.len() > 0 && iterations > 0 && spec_variance(rets@) == 0) ==> r == (
            0i128,
            0i128,
        ),
        seed matches Some(s) ==> {
            &&& r.0 as int == spec_mc(rets@, iterations as int, confidence as int, s).0
            &&& r.1 as int == spec_mc(rets@, iterations as int, confidence as int, s).1
        },
{
    if rets.len() == 0 || iterations == 0 {
        return (0, 0);
    }
    let mean = optimize_signals(rets);
    let var_fit = variance(rets);
    let std = isqrt(var_fit);
    proof {
        assert((std as int == 0) == (var_fit as int == 0)) by (nonlinear_arith)
            requires
                crate::fixed::is_isqrt(var_fit as int, std as int),
        ;
        assert(std as int <= 2 * AMOUNT_MAX) by (nonlinear_arith)
            requires
                crate::fixed::is_isqrt(var_fit as int, std as int),
                var_fit as int <= 4 * AMOUNT_MAX * AMOUNT_MAX,
                AMOUNT_MAX == 1_000_000_000_000i128,
        ;
    }
    if std == 0 {
        return (0, 0);
    }
    let mut rng: RandomSource = match seed {
        Some(s) => source_from_seed(s),
        None => source_from_entropy(),
    };
    let samples = draw_samples(&mut rng, iterations, mean, std);
    mc_from_samples(samples, confidence)
}

/// Two Monte Carlo runs over the same rets, iteration count, confidence
/// and seed produce identical results.
pub proof fn lemma_monte_carlo_deterministic(
    r1: (i128, i128),
    r2: (i128, i128),
    rets: Seq<i128>,
    iterations: int,
    confidence: int,
    seed: u64,
)
    requires
        r1.0 as int == spec_mc(rets, iterations, confidence, seed).0,
        r1.1 as int == spec_mc(rets, iterations, confidence, seed).1,
        r2.0 as int == spec_mc(rets, iterations, confidence, seed).0,
        r2.1 as int == spec_mc(rets, iterations, confidence, seed).1,
    ensures
        r1 == r2,
{
}

/// The echoed parameters and result of a validated Monte Carlo request.
pub struct MonteCarloOutcome {
    pub var: i128,
    pub cvar: i128,
    pub iterations: usize,
    pub confidence: i128,
}

/// The clamp a request's confidence goes through: into `[0.5, 0.999]`.
pub open spec fn spec_clamped_confidence(c: int) -> int {
    if c < 5000 {
        5000
    } else if c > 9990 {
        9990
    } else {
        c
    }
}

/// The cap a request's iteration count goes through.
pub open spec fn spec_capped_iterations(n: int) -> int {
    if n > MAX_ITERATIONS {
        MAX_ITERATIONS as int
    } else {
        n
    }
}

/// Validate and run one Monte Carlo request: an empty return series is
/// rejected with a reason; the iteration count is capped at
/// [`MAX_ITERATIONS`] and the confidence clamped into `[0.5, 0.999]`.
pub fn mc_var_request(
    rets: &Vec<i128>,
    iterations: usize,
    confidence: i128,
    seed: Option<u64>,
) -> (res: Result<MonteCarloOutcome, String>)
    requires
        series_ok(rets@),
    ensures
        res is Err <==> rets@.len() == 0,
        res matches Err(e) ==> e@ == "returns array cannot be empty"@,
        res matches Ok(o) ==> {
            &&& o.iterations as int == spec_capped_iterations(iterations as int)
            &&& o.confidence as int == spec_clamped_confidence(confidence as int)
            &&& 0 <= o.var <= o.cvar
            &&& seed matches Some(s) ==> {
                &&& o.var as int == spec_mc(
                    rets@,
                    o.iterations as int,
                    o.confidence as int,
                    s,
                ).0
                &&& o.cvar as int == spec_mc(
                    rets@,
                    o.iterations as int,
                    o.confidence as int,
                    s,
                ).1
            }
        },
{
    if rets.len() == 0 {
        return Err(String::from_str("returns array cannot be empty"));
    }
    let iters = if iterations > MAX_ITERATIONS {
        MAX_ITERATIONS
    } else {
        iterations
    };
    let conf = if confidence < 5000 {
        5000
    } else if confidence > 9990 {
        9990
    } else {
        confidence
    };
    let (var, cvar) = monte_carlo_var(rets, iters, conf, seed);
    Ok(MonteCarloOutcome { var, cvar, iterations: iters, confidence: conf })
}

} // verus!
