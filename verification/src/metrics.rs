//! Portfolio risk metrics: exposure, drawdown, parametric Value-at-Risk and
//! conditional Value-at-Risk, plus the process-wide risk state record that a
//! risk evaluation updates.
//!
//! Degenerate inputs (no positions, non-positive portfolio value,
//! non-positive VaR) resolve to zero by design: the permissive contract of
//! the service, not an error.

use vstd::prelude::*;
use crate::fixed::{
    AMOUNT_MAX, MAX_POSITIONS, RATIO_MAX, SCALE, SCALE_SQ, div_floor, lemma_div_bounds,
    lemma_mul_bound,
};

verus! {

/// One portfolio position. `quantity` is signed (short positions are
/// negative); `price` is non-negative. Both are fixed-point values.
pub struct Position {
    pub symbol: String,
    pub quantity: i128,
    pub price: i128,
}

/// The bounds a position must respect so that every aggregate fits `i128`.
pub open spec fn position_ok(p: Position) -> bool {
    &&& -AMOUNT_MAX <= p.quantity <= AMOUNT_MAX
    &&& 0 <= p.price <= AMOUNT_MAX
}

/// A position list the engine accepts.
pub open spec fn positions_ok(s: Seq<Position>) -> bool {
    &&& s.len() <= MAX_POSITIONS
    &&& forall|i: int| 0 <= i < s.len() ==> position_ok(#[trigger] s[i])
}

/// Signed portfolio value: the sum of `quantity * price` over the list,
/// scaled by `SCALE_SQ`.
pub open spec fn net_sum(s: Seq<Position>) -> int
    decreases s.len(),
{
    if s.len() == 0 {
        0
    } else {
        net_sum(s.drop_last()) + s.last().quantity * s.last().price
    }
}

/// Gross portfolio value: the sum of `|quantity * price|`, scaled by
/// `SCALE_SQ`.
pub open spec fn abs_sum(s: Seq<Position>) -> int
    decreases s.len(),
{
    if s.len() == 0 {
        0
    } else {
        abs_sum(s.drop_last()) + vstd::math::abs(s.last().quantity * s.last().price)
    }
}

/// Exposure: gross position value over portfolio value, zero when the
/// portfolio value is not positive.
pub open spec fn spec_exposure(s: Seq<Position>, pv: int) -> int {
    if pv <= 0 {
        0
    } else {
        abs_sum(s) / pv
    }
}

/// Drawdown implied by the positions: the percentage shortfall of the net
/// position value below the portfolio value, clamped to `[0, 100]` percent.
pub open spec fn spec_drawdown_from_positions(s: Seq<Position>, pv: int) -> int {
    if pv <= 0 {
        0
    } else {
        let raw = pv * SCALE - net_sum(s);
        if raw <= 0 {
            0
        } else {
            let dd = raw * 100 / pv;
            if dd > 100 * SCALE {
                100 * SCALE
            } else {
                dd
            }
        }
    }
}

/// The z-score times the assumed 2% daily volatility, by confidence tier:
/// `z = 2.33` from 0.99 up, `1.65` from 0.95 up, else `1.28`.
pub open spec fn z_vol_factor(conf: int) -> int {
    if conf >= 9900 {
        466
    } else if conf >= 9500 {
        330
    } else {
        256
    }
}

/// Parametric Value-at-Risk. The formula
/// `z * volatility * portfolio_value * (net / portfolio_value)` cancels the
/// portfolio value exactly, so it is stated as `z * volatility * net`.
pub open spec fn spec_parametric_var(s: Seq<Position>, pv: int, conf: int) -> int {
    if s.len() == 0 || pv <= 0 {
        0
    } else {
        z_vol_factor(conf) * net_sum(s) / SCALE_SQ as int
    }
}

/// Conditional VaR multiplier by confidence tier: 1.3, 1.25 or 1.2.
pub open spec fn cvar_multiplier(conf: int) -> int {
    if conf >= 9900 {
        13000
    } else if conf >= 9500 {
        12500
    } else {
        12000
    }
}

/// Conditional VaR: the VaR times an empirical tail multiplier, zero when
/// the VaR is not positive.
pub open spec fn spec_cvar(var: int, conf: int) -> int {
    if var <= 0 {
        0
    } else {
        var * cvar_multiplier(conf) / SCALE as int
    }
}

/// Both position sums are bounded by `len * AMOUNT_MAX^2`, and the signed
/// sum never exceeds the gross sum in magnitude.
pub proof fn lemma_pos_sums_bounds(s: Seq<Position>)
    requires
        forall|i: int| 0 <= i < s.len() ==> position_ok(#[trigger] s[i]),
    ensures
        0 <= abs_sum(s) <= s.len() as int * (AMOUNT_MAX * AMOUNT_MAX),
        -abs_sum(s) <= net_sum(s) <= abs_sum(s),
    decreases s.len(),
{
    if s.len() == 0 {
    } else {
        lemma_pos_sums_bounds(s.drop_last());
        let v = s.last().quantity * s.last().price;
        lemma_mul_bound(
            s.last().quantity as int,
            s.last().price as int,
            AMOUNT_MAX as int,
            AMOUNT_MAX as int,
        );
        assert(s.len() as int * (AMOUNT_MAX * AMOUNT_MAX) == (s.len() - 1) as int * (AMOUNT_MAX
            * AMOUNT_MAX) + AMOUNT_MAX * AMOUNT_MAX) by (nonlinear_arith);
    }
}

/// Position lists the engine accepts have sums within [`RATIO_MAX`].
pub proof fn lemma_pos_sums_in_range(s: Seq<Position>)
    requires
        positions_ok(s),
    ensures
        0 <= abs_sum(s) <= RATIO_MAX,
        -RATIO_MAX <= net_sum(s) <= RATIO_MAX,
{
    lemma_pos_sums_bounds(s);
    assert(s.len() as int * (AMOUNT_MAX * AMOUNT_MAX) <= 1_000_000int * (AMOUNT_MAX * AMOUNT_MAX))
        by (nonlinear_arith)
        requires
            0 <= s.len() as int <= 1_000_000int,
    ;
}

proof fn lemma_net_sum_take_succ(s: Seq<Position>, i: int)
    requires
        0 <= i < s.len(),
    ensures
        net_sum(s.take(i + 1)) == net_sum(s.take(i)) + s[i].quantity * s[i].price,
        abs_sum(s.take(i + 1)) == abs_sum(s.take(i)) + vstd::math::abs(s[i].quantity * s[i].price),
{
    assert(s.take(i + 1).drop_last() =~= s.take(i));
    assert(s.take(i + 1).last() == s[i]);
}

/// Signed sum of `quantity * price` over the positions.
pub fn net_position_value(positions: &Vec<Position>) -> (r: i128)
    requires
        positions_ok(positions@),
    ensures
        r as int == net_sum(positions@),
        -RATIO_MAX <= r as int <= RATIO_MAX,
{
    let mut acc: i128 = 0;
    let mut i: usize = 0;
    proof {
        assert(positions@.take(0int) =~= Seq::<Position>::empty());
        lemma_pos_sums_in_range(positions@);
    }
    while i < positions.len()
        invariant
            0 <= i <= positions@.len(),
            positions_ok(positions@),
            acc as int == net_sum(positions@.take(i as int)),
            -RATIO_MAX <= acc as int <= RATIO_MAX,
        decreases positions@.len() - i,
    {
        proof {
            lemma_net_sum_take_succ(positions@, i as int);
            assert(positions@.take(i as int + 1) =~= positions@.take(i as int + 1));
            lemma_pos_sums_in_range(positions@.take(i as int + 1));
            assert(positions@.take(i as int + 1)[i as int] == positions@[i as int]);
            lemma_mul_bound(
                positions@[i as int].quantity as int,
                positions@[i as int].price as int,
                AMOUNT_MAX as int,
                AMOUNT_MAX as int,
            );
        }
        let p = &positions[i];
        acc = acc + p.quantity * p.price;
        i = i + 1;
    }
    proof {
        assert(positions@.take(positions@.len() as int) =~= positions@);
    }
    acc
}

/// Gross sum of `|quantity * price|` over the positions.
fn abs_value_exec(positions: &Vec<Position>) -> (r: i128)
    requires
        positions_ok(positions@),
    ensures
        r as int == abs_sum(positions@),
        0 <= r as int <= RATIO_MAX,
{
    let mut acc: i128 = 0;
    let mut i: usize = 0;
    proof {
        assert(positions@.take(0int) =~= Seq::<Position>::empty());
    }
    while i < positions.len()
        invariant
            0 <= i <= positions@.len(),
            positions_ok(positions@),
            acc as int == abs_sum(positions@.take(i as int)),
            0 <= acc as int <= RATIO_MAX,
        decreases positions@.len() - i,
    {
        proof {
            lemma_net_sum_take_succ(positions@, i as int);
            lemma_pos_sums_in_range(positions@.take(i as int + 1));
            assert(positions@.take(i as int + 1)[i as int] == positions@[i as int]);
            lemma_mul_bound(
                positions@[i as int].quantity as int,
                positions@[i as int].price as int,
                AMOUNT_MAX as int,
                AMOUNT_MAX as int,
            );
        }
        let p = &positions[i];
        let v = p.quantity * p.price;
        if v < 0 {
            acc = acc + (-v);
        } else {
            acc = acc + v;
        }
        i = i + 1;
    }
    proof {
        assert(positions@.take(positions@.len() as int) =~= positions@);
    }
    acc
}

/// Exposure: gross position value over portfolio value; zero when the
/// portfolio value is not positive.
pub fn compute_exposure(positions: &Vec<Position>, portfolio_value: i128) -> (r: i128)
    requires
        positions_ok(positions@),
    ensures
        r as int == spec_exposure(positions@, portfolio_value as int),
        0 <= r as int <= RATIO_MAX,
{
    if portfolio_value <= 0 {
        return 0;
    }
    let gross = abs_value_exec(positions);
    proof {
        lemma_div_bounds(gross as int, portfolio_value as int);
    }
    div_floor(gross, portfolio_value)
}

/// Drawdown implied by the positions, clamped to `[0, 100]` percent.
pub fn compute_drawdown_from_positions(positions: &Vec<Position>, portfolio_value: i128) -> (r:
    i128)
    requires
        positions_ok(positions@),
        -AMOUNT_MAX <= portfolio_value <= AMOUNT_MAX,
    ensures
        r as int == spec_drawdown_from_positions(positions@, portfolio_value as int),
        0 <= r as int <= 100 * SCALE,
{
    if portfolio_value <= 0 {
        return 0;
    }
    let net = net_position_value(positions);
    let raw = portfolio_value * SCALE - net;
    if raw <= 0 {
        return 0;
    }
    proof {
        lemma_div_bounds(raw as int * 100, portfolio_value as int);
    }
    let dd = div_floor(raw * 100, portfolio_value);
    if dd > 100 * SCALE {
        100 * SCALE
    } else {
        dd
    }
}

/// Parametric VaR: signed net value times the tiered z-score times the
/// assumed volatility. Zero when there are no positions or the portfolio
/// value is not positive; negative when the net position value is negative,
/// exactly as the formula dictates.
pub fn compute_var(positions: &Vec<Position>, portfolio_value: i128, confidence: i128) -> (r: i128)
    requires
        positions_ok(positions@),
    ensures
        r as int == spec_parametric_var(positions@, portfolio_value as int, confidence as int),
        -RATIO_MAX <= r as int <= RATIO_MAX,
{
    if positions.len() == 0 || portfolio_value <= 0 {
        return 0;
    }
    let net = net_position_value(positions);
    let factor: i128 = if confidence >= 9900 {
        466
    } else if confidence >= 9500 {
        330
    } else {
        256
    };
    proof {
        lemma_mul_bound(factor as int, net as int, 466, RATIO_MAX as int);
        lemma_div_bounds(factor as int * net as int, SCALE_SQ as int);
        assert(466 * RATIO_MAX / SCALE_SQ as int <= RATIO_MAX);
        vstd::arithmetic::div_mod::lemma_div_is_ordered(
            factor as int * net as int,
            466 * RATIO_MAX,
            SCALE_SQ as int,
        );
        vstd::arithmetic::div_mod::lemma_div_is_ordered(
            -(466 * RATIO_MAX),
            factor as int * net as int,
            SCALE_SQ as int,
        );
        assert(-(466 * RATIO_MAX) / SCALE_SQ as int >= -RATIO_MAX);
    }
    div_floor(factor * net, SCALE_SQ)
}

/// Conditional VaR: VaR times the tiered tail multiplier. Zero whenever the
/// VaR is not positive, for every confidence level.
pub fn compute_cvar(var: i128, confidence: i128) -> (r: i128)
    requires
        -RATIO_MAX <= var <= RATIO_MAX,
    ensures
        r as int == spec_cvar(var as int, confidence as int),
        var <= 0 ==> r == 0,
        0 <= r as int <= 2 * RATIO_MAX,
{
    if var <= 0 {
        return 0;
    }
    let mult: i128 = if confidence >= 9900 {
        13000
    } else if confidence >= 9500 {
        12500
    } else {
        12000
    };
    proof {
        lemma_mul_bound(var as int, mult as int, RATIO_MAX as int, 13000);
        lemma_div_bounds(var as int * mult as int, SCALE as int);
        vstd::arithmetic::div_mod::lemma_div_is_ordered(
            var as int * mult as int,
            13000 * RATIO_MAX,
            SCALE as int,
        );
        assert(13000 * RATIO_MAX / SCALE as int <= 2 * RATIO_MAX);
        assert(var as int * mult as int >= 0) by (nonlinear_arith)
            requires
                var as int > 0,
                mult as int > 0,
        ;
        vstd::arithmetic::div_mod::lemma_div_pos_is_pos(var as int * mult as int, SCALE as int);
    }
    div_floor(var * mult, SCALE)
}

/// State of the peak-tracking drawdown fold after the first `n` equity
/// points: `(running peak, largest drawdown seen)`.
pub open spec fn dd_fold(s: Seq<i128>, n: int) -> (int, int)
    decreases n,
{
    if n <= 0 {
        (s[0] as int, 0)
    } else {
        let prev = dd_fold(s, n - 1);
        let v = s[n - 1] as int;
        let peak = if v > prev.0 {
            v
        } else {
            prev.0
        };
        let dd = if peak > 0 {
            let cand = (peak - v) * 100 * SCALE / peak;
            if cand > prev.1 {
                cand
            } else {
                prev.1
            }
        } else {
            prev.1
        };
        (peak, dd)
    }
}

/// Maximum percentage drawdown of an equity series: the largest
/// peak-to-value decline relative to the running peak. Series with fewer
/// than two points have no drawdown.
pub open spec fn spec_max_drawdown(s: Seq<i128>) -> int {
    if s.len() < 2 {
        0
    } else {
        dd_fold(s, s.len() as int).1
    }
}

proof fn lemma_dd_fold_bounds(s: Seq<i128>, n: int)
    requires
        0 <= n <= s.len(),
        s.len() > 0,
        forall|i: int| 0 <= i < s.len() ==> -AMOUNT_MAX <= #[trigger] s[i] <= AMOUNT_MAX,
    ensures
        -AMOUNT_MAX <= dd_fold(s, n).0 <= AMOUNT_MAX,
        0 <= dd_fold(s, n).1 <= 2 * AMOUNT_MAX * 100 * SCALE,
    decreases n,
{
    if n <= 0 {
    } else {
        lemma_dd_fold_bounds(s, n - 1);
        let prev = dd_fold(s, n - 1);
        let v = s[n - 1] as int;
        let peak = if v > prev.0 {
            v
        } else {
            prev.0
        };
        if peak > 0 {
            lemma_div_bounds((peak - v) * 100 * SCALE, peak);
            if peak - v >= 0 {
                vstd::arithmetic::div_mod::lemma_div_is_ordered(
                    (peak - v) * 100 * SCALE,
                    2 * AMOUNT_MAX * 100 * SCALE,
                    peak,
                );
                vstd::arithmetic::div_mod::lemma_div_is_ordered_by_denominator(
                    2 * AMOUNT_MAX * 100 * SCALE,
                    1,
                    peak,
                );
            }
        }
    }
}

/// Maximum percentage drawdown over an equity series.
pub fn compute_drawdown(equity_history: &Vec<i128>) -> (r: i128)
    requires
        crate::stats::series_ok(equity_history@),
    ensures
        r as int == spec_max_drawdown(equity_history@),
        0 <= r,
{
    if equity_history.len() < 2 {
        return 0;
    }
    let ghost s = equity_history@;
    let mut peak: i128 = equity_history[0];
    let mut max_dd: i128 = 0;
    let mut i: usize = 0;
    while i < equity_history.len()
        invariant
            0 <= i <= s.len(),
            0 < s.len(),
            equity_history@ == s,
            crate::stats::series_ok(s),
            peak as int == dd_fold(s, i as int).0,
            max_dd as int == dd_fold(s, i as int).1,
            -AMOUNT_MAX <= peak as int <= AMOUNT_MAX,
            0 <= max_dd as int <= 2 * AMOUNT_MAX * 100 * SCALE,
        decreases s.len() - i,
    {
        proof {
            lemma_dd_fold_bounds(s, i as int + 1);
        }
        let v = equity_history[i];
        if v > peak {
            peak = v;
        }
        if peak > 0 {
            proof {
                lemma_div_bounds((peak as int - v as int) * 100 * SCALE, peak as int);
            }
            let dd = div_floor((peak - v) * 100 * SCALE, peak);
            if dd > max_dd {
                max_dd = dd;
            }
        }
        i = i + 1;
    }
    max_dd
}

/// The process-wide risk state: the last computed metrics and the time they
/// were written.
#[derive(Clone, Copy, PartialEq, Eq, Structural, Debug)]
pub struct RiskState {
    pub total_exposure: i128,
    pub active_positions: usize,
    pub var: i128,
    pub cvar: i128,
    pub drawdown: i128,
    pub last_update: u64,
}

/// The invariant every stored risk state satisfies: each metric stays in
/// the range the evaluation itself can produce.
pub open spec fn risk_state_ok(s: RiskState) -> bool {
    &&& 0 <= s.total_exposure <= RATIO_MAX
    &&& -RATIO_MAX <= s.var <= RATIO_MAX
    &&& 0 <= s.cvar <= 2 * RATIO_MAX
    &&& 0 <= s.drawdown <= 100 * SCALE
}

impl Default for RiskState {
    /// The all-zero state a process starts from when no snapshot can be
    /// loaded.
    fn default() -> (r: RiskState)
        ensures
            r == (RiskState {
                total_exposure: 0,
                active_positions: 0,
                var: 0,
                cvar: 0,
                drawdown: 0,
                last_update: 0,
            }),
            risk_state_ok(r),
    {
        RiskState { total_exposure: 0, active_positions: 0, var: 0, cvar: 0, drawdown: 0, last_update: 0 }
    }
}

impl RiskState {
    /// A consistent snapshot of the state: reading never mutates, so two
    /// snapshots with no mutation in between are identical.
    pub fn snapshot(&self) -> (r: RiskState)
        ensures
            r == *self,
    {
        *self
    }
}

/// Two snapshots of the same state value, taken with no mutation in
/// between, are identical.
pub proof fn lemma_snapshot_stable(s: RiskState, r1: RiskState, r2: RiskState)
    requires
        r1 == s,
        r2 == s,
    ensures
        r1 == r2,
{
}

/// The response of one risk evaluation. The VaR and CVaR are money
/// amounts scaled by `SCALE`; the drawdown is a percentage scaled by
/// `SCALE`; the exposure is a ratio scaled by `SCALE`.
pub struct RiskEvaluation {
    pub value_at_risk: i128,
    pub conditional_var: i128,
    pub drawdown: i128,
    pub exposure: i128,
    pub timestamp: u64,
}

/// Evaluate the portfolio's risk metrics and write them, with the supplied
/// timestamp, into the shared risk state.
pub fn evaluate_risk(
    state: &mut RiskState,
    positions: &Vec<Position>,
    portfolio_value: i128,
    confidence: i128,
    now: u64,
) -> (r: RiskEvaluation)
    requires
        positions_ok(positions@),
        -AMOUNT_MAX <= portfolio_value <= AMOUNT_MAX,
    ensures
        r.exposure as int == spec_exposure(positions@, portfolio_value as int),
        r.drawdown as int == spec_drawdown_from_positions(positions@, portfolio_value as int),
        r.value_at_risk as int == spec_parametric_var(
            positions@,
            portfolio_value as int,
            confidence as int,
        ),
        r.conditional_var as int == spec_cvar(r.value_at_risk as int, confidence as int),
        r.timestamp == now,
        *final(state) == (RiskState {
            total_exposure: r.exposure,
            active_positions: positions@.len() as usize,
            var: r.value_at_risk,
            cvar: r.conditional_var,
            drawdown: r.drawdown,
            last_update: now,
        }),
        risk_state_ok(*final(state)),
{
    let exposure = compute_exposure(positions, portfolio_value);
    let drawdown = compute_drawdown_from_positions(positions, portfolio_value);
    let var = compute_var(positions, portfolio_value, confidence);
    let cvar = compute_cvar(var, confidence);
    state.total_exposure = exposure;
    state.active_positions = positions.len();
    state.var = var;
    state.cvar = cvar;
    state.drawdown = drawdown;
    state.last_update = now;
    RiskEvaluation {
        value_at_risk: var,
        conditional_var: cvar,
        drawdown,
        exposure,
        timestamp: now,
    }
}

} // verus!
