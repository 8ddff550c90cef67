//! Backtest statistics: evaluate a list of strategies, each over a series
//! of mock per-period returns, producing Sharpe ratio, a peak-gap drawdown,
//! win rate and total return per strategy.
//!
//! A mock return is one 64-bit draw reduced to a uniform step in
//! `[-0.01, 0.01)` (fixed-point: `u % 200 - 100`). The drawdown is
//! deliberately the largest gap between the running maximum single return
//! and the current return — not a cumulative-equity drawdown; it mirrors
//! the mocked behaviour of the service exactly. Aggregation keeps the
//! caller's strategy order.

use vstd::prelude::*;
use vstd::string::StringExecFns;
use crate::fixed::{AMOUNT_MAX, SCALE, div_floor, lemma_div_bounds, lemma_mul_bound};
use crate::stats::{
    series_ok, series_sum, spec_mean, spec_std, spec_variance, sum_of, optimize_signals,
    standard_deviation,
};
use crate::rng::{RandomSource, draw_u64, source_from_entropy, source_from_seed, stream_of_seed};

verus! {

/// `floor(sqrt(252) * SCALE)`: the annualisation factor of the Sharpe
/// ratio, as a fixed-point value.
pub const SQRT252_FP: i128 = 158_745;

/// One mock per-period return: a raw draw reduced to a uniform fixed-point
/// step in `[-0.01, 0.01)`.
pub open spec fn spec_mock_return(u: u64) -> int {
    (u as int % 200) - 100
}

/// The return series of a seeded run: `n` consecutive draws starting at
/// stream offset `base`.
pub open spec fn mock_returns_seq(seed: u64, base: int, n: int) -> Seq<i128> {
    Seq::new(n as nat, |i: int| spec_mock_return(stream_of_seed(seed, base + i)) as i128)
}

/// The annualised Sharpe ratio: mean over standard deviation, times
/// `sqrt(252)`; zero when the deviation is zero.
pub open spec fn spec_sharpe(rets: Seq<i128>) -> int {
    if spec_std(rets) == 0 {
        0
    } else {
        spec_mean(rets) * SQRT252_FP / spec_std(rets)
    }
}

/// State of the peak-gap fold after the first `n` returns: `(running
/// maximum return, largest gap seen)`. Both start at zero, and the gap is
/// measured against the maximum *before* the current return.
pub open spec fn bt_dd_fold(s: Seq<i128>, n: int) -> (int, int)
    decreases n,
{
    if n <= 0 {
        (0, 0)
    } else {
        let prev = bt_dd_fold(s, n - 1);
        let r = s[n - 1] as int;
        let new_peak = vstd::math::max(prev.0, r);
        let gap = vstd::math::max(prev.0 - r, 0);
        (new_peak, vstd::math::max(prev.1, gap))
    }
}

/// The peak-gap drawdown of a return series.
pub open spec fn spec_bt_max_drawdown(s: Seq<i128>) -> int {
    bt_dd_fold(s, s.len() as int).1
}

/// Count of strictly positive returns among the first `n`.
pub open spec fn win_cnt(s: Seq<i128>, n: int) -> int
    decreases n,
{
    if n <= 0 {
        0
    } else {
        win_cnt(s, n - 1) + if s[n - 1] > 0 {
            1int
        } else {
            0
        }
    }
}

/// The fraction of strictly positive returns.
pub open spec fn spec_win_rate(s: Seq<i128>) -> int {
    win_cnt(s, s.len() as int) * SCALE / s.len() as int
}

/// One strategy's aggregate statistics.
pub struct BacktestResult {
    pub strategy: String,
    pub sharpe: i128,
    pub max_drawdown: i128,
    pub win_rate: i128,
    pub total_return: i128,
    pub trades: usize,
}

proof fn lemma_bt_dd_fold_bounds(s: Seq<i128>, n: int, c: int)
    requires
        0 <= c,
        n <= s.len(),
        forall|i: int| 0 <= i < s.len() ==> -c <= #[trigger] s[i] <= c,
    ensures
        0 <= bt_dd_fold(s, n).0 <= c,
        0 <= bt_dd_fold(s, n).1 <= 2 * c,
    decreases n,
{
    if n <= 0 {
    } else {
        lemma_bt_dd_fold_bounds(s, n - 1, c);
    }
}

proof fn lemma_win_cnt_bounds(s: Seq<i128>, n: int)
    requires
        0 <= n <= s.len(),
    ensures
        0 <= win_cnt(s, n) <= n,
    decreases n,
{
    if n <= 0 {
    } else {
        lemma_win_cnt_bounds(s, n - 1);
    }
}

/// Mock per-period returns: `n` uniform draws. For a seeded source the
/// series is exactly [`mock_returns_seq`] at the source's position.
fn generate_returns(rng: &mut RandomSource, n: usize) -> (v: Vec<i128>)
    ensures
        v@.len() == n,
        forall|i: int| 0 <= i < n ==> -100 <= #[trigger] v@[i] <= 99,
        final(rng).provenance() == old(rng).provenance(),
        final(rng).drawn() == old(rng).drawn() + n,
        old(rng).provenance() matches Some(seed) ==> v@ =~= mock_returns_seq(
            seed,
            old(rng).drawn(),
            n as int,
        ),
{
    let mut v: Vec<i128> = Vec::new();
    let mut i: usize = 0;
    while i < n
        invariant
            0 <= i <= n,
            v@.len() == i,
            rng.provenance() == old(rng).provenance(),
            rng.drawn() == old(rng).drawn() + i,
            forall|j: int| 0 <= j < i ==> -100 <= #[trigger] v@[j] <= 99,
            old(rng).provenance() matches Some(seed) ==> forall|j: int|
                0 <= j < i ==> #[trigger] v@[j] as int == spec_mock_return(
                    stream_of_seed(seed, old(rng).drawn() + j),
                ),
        decreases n - i,
    {
        let u = draw_u64(rng);
        proof {
            vstd::arithmetic::div_mod::lemma_mod_division_less_than_divisor(u as int, 200);
        }
        let r = (u % 200) as i128 - 100;
        v.push(r);
        i = i + 1;
    }
    proof {
        if old(rng).provenance() is Some {
            let seed = old(rng).provenance()->0;
            assert(v@ =~= mock_returns_seq(seed, old(rng).drawn(), n as int));
        }
    }
    v
}

/// The aggregate statistics of one strategy over a given return series:
/// the whole computation that follows the random draws, verified for every
/// series.
pub fn backtest_from_returns(strategy: &str, rets: &Vec<i128>) -> (r: BacktestResult)
    requires
        series_ok(rets@),
        rets@.len() > 0,
    ensures
        r.strategy@ == strategy@,
        r.total_return as int == sum_of(rets@),
        r.sharpe as int == spec_sharpe(rets@),
        spec_std(rets@) == 0 ==> r.sharpe == 0,
        r.max_drawdown as int == spec_bt_max_drawdown(rets@),
        r.win_rate as int == spec_win_rate(rets@),
        0 <= r.win_rate <= SCALE,
        r.trades == rets@.len(),
{
    let n = rets.len();
    let total = series_sum(rets);
    let mean = optimize_signals(rets);
    let std = standard_deviation(rets);
    let sharpe: i128;
    if std == 0 {
        sharpe = 0;
    } else {
        proof {
            lemma_mul_bound(mean as int, SQRT252_FP as int, AMOUNT_MAX as int, SQRT252_FP as int);
        }
        sharpe = div_floor(mean * SQRT252_FP, std);
    }
    let ghost s = rets@;
    let mut peak: i128 = 0;
    let mut max_dd: i128 = 0;
    let mut wins: i128 = 0;
    let mut i: usize = 0;
    while i < n
        invariant
            0 <= i <= s.len(),
            n == s.len(),
            rets@ == s,
            series_ok(s),
            peak as int == bt_dd_fold(s, i as int).0,
            max_dd as int == bt_dd_fold(s, i as int).1,
            0 <= peak as int <= AMOUNT_MAX,
            0 <= max_dd as int <= 2 * AMOUNT_MAX,
            wins as int == win_cnt(s, i as int),
            0 <= wins as int <= i as int,
        decreases s.len() - i,
    {
        proof {
            lemma_bt_dd_fold_bounds(s, i as int + 1, AMOUNT_MAX as int);
            lemma_win_cnt_bounds(s, i as int + 1);
        }
        let r = rets[i];
        let gap = if peak - r > 0 {
            peak - r
        } else {
            0
        };
        if gap > max_dd {
            max_dd = gap;
        }
        if r > peak {
            peak = r;
        }
        if r > 0 {
            wins = wins + 1;
        }
        i = i + 1;
    }
    proof {
        lemma_win_cnt_bounds(s, s.len() as int);
        lemma_mul_bound(wins as int, SCALE as int, s.len() as int, SCALE as int);
        assert(wins as int * SCALE <= (s.len() as int) * (SCALE as int)) by (nonlinear_arith)
            requires
                0 <= wins as int <= s.len() as int,
                SCALE == 10_000i128,
        ;
        vstd::arithmetic::div_mod::lemma_div_is_ordered(
            wins as int * SCALE,
            s.len() as int * SCALE,
            s.len() as int,
        );
        vstd::arithmetic::div_mod::lemma_div_multiples_vanish(SCALE as int, s.len() as int);
        assert(s.len() as int * SCALE == s.len() as int * (SCALE as int)) by (nonlinear_arith);
        assert(s.len() as int * (SCALE as int) == (s.len() as int) * (SCALE as int));
        lemma_div_bounds(wins as int * SCALE, s.len() as int);
    }
    let win_rate = div_floor(wins * SCALE, n as i128);
    BacktestResult {
        strategy: String::from_str(strategy),
        sharpe,
        max_drawdown: max_dd,
        win_rate,
        total_return: total,
        trades: n,
    }
}

/// Evaluate one strategy over `iters` freshly drawn mock returns. With a
/// seed the result is a pure function of `(strategy, iters, seed)`; without
/// one, the draws come from operating-system entropy and the bounds below
/// still hold.
pub fn run_strategy_backtest(strategy: &str, iters: usize, seed: Option<u64>) -> (r:
    BacktestResult)
    requires
        0 < iters < 4_294_967_296,
    ensures
        r.strategy@ == strategy@,
        r.trades == iters,
        0 <= r.win_rate <= SCALE,
        seed matches Some(s) ==> {
            let rets = mock_returns_seq(s, 0, iters as int);
            &&& r.total_return as int == sum_of(rets)
            &&& r.sharpe as int == spec_sharpe(rets)
            &&& r.max_drawdown as int == spec_bt_max_drawdown(rets)
            &&& r.win_rate as int == spec_win_rate(rets)
        },
{
    let mut rng: RandomSource = match seed {
        Some(s) => source_from_seed(s),
        None => source_from_entropy(),
    };
    let rets = generate_returns(&mut rng, iters);
    backtest_from_returns(strategy, &rets)
}

/// Evaluate every strategy independently over `iters` mock returns each,
/// keeping the caller's strategy order in the output. With a seed, strategy
/// `i` reads the seeded stream starting at offset `i * iters`.
pub fn run_backtest(strategies: &Vec<String>, iters: usize, seed: Option<u64>) -> (rs: Vec<
    BacktestResult>)
    requires
        0 < iters < 4_294_967_296,
    ensures
        rs@.len() == strategies@.len(),
        forall|i: int|
            0 <= i < strategies@.len() ==> {
                &&& (#[trigger] rs@[i]).strategy@ == strategies@[i]@
                &&& rs@[i].trades == iters
                &&& 0 <= rs@[i].win_rate <= SCALE
            },
        seed matches Some(s) ==> forall|i: int|
            0 <= i < strategies@.len() ==> {
                let rets = mock_returns_seq(s, i * iters as int, iters as int);
                &&& (#[trigger] rs@[i]).total_return as int == sum_of(rets)
                &&& rs@[i].sharpe as int == spec_sharpe(rets)
                &&& rs@[i].max_drawdown as int == spec_bt_max_drawdown(rets)
                &&& rs@[i].win_rate as int == spec_win_rate(rets)
            },
{
    let mut rng: RandomSource = match seed {
        Some(s) => source_from_seed(s),
        None => source_from_entropy(),
    };
    let mut rs: Vec<BacktestResult> = Vec::new();
    let mut i: usize = 0;
    while i < strategies.len()
        invariant
            0 <= i <= strategies@.len(),
            0 < iters < 4_294_967_296,
            rs@.len() == i,
            rng.provenance() == seed,
            rng.drawn() == i as int * iters as int,
            forall|j: int|
                0 <= j < i ==> {
                    &&& (#[trigger] rs@[j]).strategy@ == strategies@[j]@
                    &&& rs@[j].trades == iters
                    &&& 0 <= rs@[j].win_rate <= SCALE
                },
            seed matches Some(s) ==> forall|j: int|
                0 <= j < i ==> {
                    let rets = mock_returns_seq(s, j * iters as int, iters as int);
                    &&& (#[trigger] rs@[j]).total_return as int == sum_of(rets)
                    &&& rs@[j].sharpe as int == spec_sharpe(rets)
                    &&& rs@[j].max_drawdown as int == spec_bt_max_drawdown(rets)
                    &&& rs@[j].win_rate as int == spec_win_rate(rets)
                },
        decreases strategies@.len() - i,
    {
        proof {
            assert((i + 1) as int * iters as int == i as int * iters as int + iters as int)
                by (nonlinear_arith);
        }
        let rets = generate_returns(&mut rng, iters);
        let r = backtest_from_returns(strategies[i].as_str(), &rets);
        rs.push(r);
        i = i + 1;
    }
    rs
}

} // verus!
