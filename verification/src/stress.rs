//! Scenario-based stress testing: apply named fractional price shocks to a
//! position set and report P&L, post-shock exposure and post-shock drawdown
//! per scenario.
//!
//! The initial portfolio value is computed locally from the positions (the
//! signed sum of `quantity * price`), a different convention from risk
//! evaluation and trade admission, where the caller supplies it. The
//! post-shock drawdown has no upper cap, unlike the one implied by
//! positions. Scenarios are independent and results keep the input order.

use vstd::prelude::*;
use crate::fixed::{
    AMOUNT_MAX, RATIO_MAX, SCALE, SHOCK_MAX, div_floor, lemma_div_bounds, lemma_mul_bound,
};
use crate::metrics::{Position, net_sum, position_ok, positions_ok, lemma_pos_sums_in_range};

verus! {

/// Largest magnitude of a shocked price:
/// `AMOUNT_MAX * (SCALE + SHOCK_MAX) / SCALE`.
pub const SHOCKED_PRICE_MAX: i128 = 11_000_000_000_000;

/// Largest magnitude of one position's post-shock value.
pub const SHOCKED_VALUE_MAX: i128 = 11_000_000_000_000_000_000_000_000;

/// Largest magnitude of a portfolio's post-shock total.
pub const SHOCKED_TOTAL_MAX: i128 = 11_000_000_000_000_000_000_000_000_000_000;

/// A named scenario: a fractional price shock per symbol. Symbols not
/// listed are unshocked.
pub struct StressScenario {
    pub name: String,
    pub shocks: Vec<(String, i128)>,
}

/// Every shock stays within [`SHOCK_MAX`].
pub open spec fn shocks_ok(s: Seq<(String, i128)>) -> bool {
    forall|i: int| 0 <= i < s.len() ==> -SHOCK_MAX <= #[trigger] s[i].1 <= SHOCK_MAX
}

pub open spec fn scenario_ok(sc: StressScenario) -> bool {
    shocks_ok(sc.shocks@)
}

pub open spec fn scenarios_ok(s: Seq<StressScenario>) -> bool {
    forall|i: int| 0 <= i < s.len() ==> scenario_ok(#[trigger] s[i])
}

/// The shock a scenario applies to a symbol: the first entry whose key
/// matches, or zero when none does.
pub open spec fn shock_for(shocks: Seq<(String, i128)>, sym: Seq<char>) -> i128
    decreases shocks.len(),
{
    if shocks.len() == 0 {
        0
    } else if shocks[0].0@ == sym {
        shocks[0].1
    } else {
        shock_for(shocks.drop_first(), sym)
    }
}

/// A price after a fractional shock: `price * (1 + shock)`.
pub open spec fn spec_new_price(p: int, h: int) -> int {
    p * (SCALE + h) / SCALE as int
}

/// Total portfolio value after the scenario's shocks.
pub open spec fn total_after(positions: Seq<Position>, shocks: Seq<(String, i128)>) -> int
    decreases positions.len(),
{
    if positions.len() == 0 {
        0
    } else {
        total_after(positions.drop_last(), shocks) + positions.last().quantity * spec_new_price(
            positions.last().price as int,
            shock_for(shocks, positions.last().symbol@) as int,
        )
    }
}

/// Scenario P&L: the shocked total minus the unshocked total.
pub open spec fn spec_scenario_pnl(positions: Seq<Position>, shocks: Seq<(String, i128)>) -> int {
    total_after(positions, shocks) - net_sum(positions)
}

/// Exposure after the scenario: shocked total over the initial total, zero
/// when the initial total is not positive.
pub open spec fn spec_exposure_after(positions: Seq<Position>, shocks: Seq<(String, i128)>) -> int {
    let initial = net_sum(positions);
    if initial <= 0 {
        0
    } else {
        total_after(positions, shocks) * SCALE / initial
    }
}

/// Drawdown after the scenario: the percentage decline of the shocked total
/// below the initial total, floored at zero and deliberately not capped.
pub open spec fn spec_drawdown_after(positions: Seq<Position>, shocks: Seq<(String, i128)>) -> int {
    let initial = net_sum(positions);
    if initial <= 0 {
        0
    } else {
        let raw = initial - total_after(positions, shocks);
        if raw <= 0 {
            0
        } else {
            raw * 100 * SCALE / initial
        }
    }
}

/// The outcome of one scenario. `pnl` is scaled by `SCALE_SQ` (it is a
/// difference of position-value sums, kept exact); `exposure_after` by
/// `SCALE`; `drawdown_after` is a percentage scaled by `SCALE`.
pub struct StressResult {
    pub name: String,
    pub pnl: i128,
    pub exposure_after: i128,
    pub drawdown_after: i128,
}

/// A shocked price stays within [`SHOCKED_PRICE_MAX`].
pub proof fn lemma_new_price_bounds(p: int, h: int)
    requires
        0 <= p <= AMOUNT_MAX,
        -SHOCK_MAX <= h <= SHOCK_MAX,
    ensures
        -SHOCKED_PRICE_MAX <= spec_new_price(p, h) <= SHOCKED_PRICE_MAX,
{
    lemma_mul_bound(p, SCALE + h, AMOUNT_MAX as int, SCALE as int + SHOCK_MAX);
    lemma_div_bounds(p * (SCALE + h), SCALE as int);
    vstd::arithmetic::div_mod::lemma_div_is_ordered(
        p * (SCALE + h),
        AMOUNT_MAX as int * (SCALE as int + SHOCK_MAX),
        SCALE as int,
    );
    vstd::arithmetic::div_mod::lemma_div_is_ordered(
        -(AMOUNT_MAX as int * (SCALE as int + SHOCK_MAX)),
        p * (SCALE + h),
        SCALE as int,
    );
    assert(AMOUNT_MAX as int * (SCALE as int + SHOCK_MAX) / SCALE as int == SHOCKED_PRICE_MAX);
    assert(-(AMOUNT_MAX as int * (SCALE as int + SHOCK_MAX)) / SCALE as int
        == -SHOCKED_PRICE_MAX);
}

/// Every valid shock a scenario can pick is within [`SHOCK_MAX`].
pub proof fn lemma_shock_for_bounds(shocks: Seq<(String, i128)>, sym: Seq<char>)
    requires
        shocks_ok(shocks),
    ensures
        -SHOCK_MAX <= shock_for(shocks, sym) <= SHOCK_MAX,
    decreases shocks.len(),
{
    if shocks.len() == 0 {
    } else if shocks[0].0@ == sym {
    } else {
        lemma_shock_for_bounds(shocks.drop_first(), sym);
    }
}

/// The shocked total is bounded by `len * SHOCKED_VALUE_MAX`.
pub proof fn lemma_total_after_bounds(positions: Seq<Position>, shocks: Seq<(String, i128)>)
    requires
        forall|i: int| 0 <= i < positions.len() ==> position_ok(#[trigger] positions[i]),
        shocks_ok(shocks),
    ensures
        -(positions.len() as int * SHOCKED_VALUE_MAX) <= total_after(positions, shocks)
            <= positions.len() as int * SHOCKED_VALUE_MAX,
    decreases positions.len(),
{
    if positions.len() == 0 {
    } else {
        lemma_total_after_bounds(positions.drop_last(), shocks);
        let p = positions.last();
        lemma_shock_for_bounds(shocks, p.symbol@);
        lemma_new_price_bounds(p.price as int, shock_for(shocks, p.symbol@) as int);
        lemma_mul_bound(
            p.quantity as int,
            spec_new_price(p.price as int, shock_for(shocks, p.symbol@) as int),
            AMOUNT_MAX as int,
            SHOCKED_PRICE_MAX as int,
        );
        assert(positions.len() as int * SHOCKED_VALUE_MAX == (positions.len() - 1) as int
            * SHOCKED_VALUE_MAX + SHOCKED_VALUE_MAX) by (nonlinear_arith);
    }
}

/// For an accepted position list, the shocked total is within
/// [`SHOCKED_TOTAL_MAX`].
pub proof fn lemma_total_after_in_range(positions: Seq<Position>, shocks: Seq<(String, i128)>)
    requires
        positions_ok(positions),
        shocks_ok(shocks),
    ensures
        -SHOCKED_TOTAL_MAX <= total_after(positions, shocks) <= SHOCKED_TOTAL_MAX,
{
    lemma_total_after_bounds(positions, shocks);
    assert(positions.len() as int * SHOCKED_VALUE_MAX <= 1_000_000int * SHOCKED_VALUE_MAX)
        by (nonlinear_arith)
        requires
            0 <= positions.len() as int <= 1_000_000int,
    ;
}

proof fn lemma_total_after_take_succ(positions: Seq<Position>, shocks: Seq<(String, i128)>, i: int)
    requires
        0 <= i < positions.len(),
    ensures
        total_after(positions.take(i + 1), shocks) == total_after(positions.take(i), shocks)
            + positions[i].quantity * spec_new_price(
            positions[i].price as int,
            shock_for(shocks, positions[i].symbol@) as int,
        ),
{
    assert(positions.take(i + 1).drop_last() =~= positions.take(i));
    assert(positions.take(i + 1).last() == positions[i]);
}

proof fn lemma_shock_for_skip(shocks: Seq<(String, i128)>, sym: Seq<char>, i: int)
    requires
        0 <= i <= shocks.len(),
        forall|j: int| 0 <= j < i ==> #[trigger] shocks[j].0@ != sym,
    ensures
        shock_for(shocks, sym) == shock_for(shocks.skip(i), sym),
    decreases i,
{
    if i == 0 {
        assert(shocks.skip(0) =~= shocks);
    } else {
        lemma_shock_for_skip(shocks, sym, i - 1);
        assert(shocks.skip(i - 1).drop_first() =~= shocks.skip(i));
        assert(shocks.skip(i - 1)[0] == shocks[i - 1]);
    }
}

/// The shock a scenario applies to a symbol: first matching entry, else 0.
fn lookup_shock(shocks: &Vec<(String, i128)>, sym: &String) -> (h: i128)
    ensures
        h == shock_for(shocks@, sym@),
{
    let mut i: usize = 0;
    while i < shocks.len()
        invariant
            0 <= i <= shocks@.len(),
            forall|j: int| 0 <= j < i ==> #[trigger] shocks@[j].0@ != sym@,
        decreases shocks@.len() - i,
    {
        if shocks[i].0.eq(sym) {
            proof {
                lemma_shock_for_skip(shocks@, sym@, i as int);
                assert(shocks@.skip(i as int)[0] == shocks@[i as int]);
            }
            return shocks[i].1;
        }
        i = i + 1;
    }
    proof {
        lemma_shock_for_skip(shocks@, sym@, shocks@.len() as int);
        assert(shocks@.skip(shocks@.len() as int) =~= Seq::<(String, i128)>::empty());
    }
    0
}

/// Run one scenario over the position set.
fn run_scenario(positions: &Vec<Position>, scenario: &StressScenario, initial: i128) -> (r:
    StressResult)
    requires
        positions_ok(positions@),
        scenario_ok(*scenario),
        initial as int == net_sum(positions@),
    ensures
        r.name@ == scenario.name@,
        r.pnl as int == spec_scenario_pnl(positions@, scenario.shocks@),
        r.exposure_after as int == spec_exposure_after(positions@, scenario.shocks@),
        r.drawdown_after as int == spec_drawdown_after(positions@, scenario.shocks@),
{
    let ghost shocks = scenario.shocks@;
    let mut total: i128 = 0;
    let mut i: usize = 0;
    proof {
        assert(positions@.take(0int) =~= Seq::<Position>::empty());
        lemma_pos_sums_in_range(positions@);
    }
    while i < positions.len()
        invariant
            0 <= i <= positions@.len(),
            positions_ok(positions@),
            scenario.shocks@ == shocks,
            shocks_ok(shocks),
            total as int == total_after(positions@.take(i as int), shocks),
            -SHOCKED_TOTAL_MAX <= total as int <= SHOCKED_TOTAL_MAX,
        decreases positions@.len() - i,
    {
        proof {
            lemma_total_after_take_succ(positions@, shocks, i as int);
            lemma_total_after_in_range(positions@.take(i as int + 1), shocks);
            assert(positions@.take(i as int + 1)[i as int] == positions@[i as int]);
            lemma_shock_for_bounds(shocks, positions@[i as int].symbol@);
            lemma_new_price_bounds(
                positions@[i as int].price as int,
                shock_for(shocks, positions@[i as int].symbol@) as int,
            );
            lemma_mul_bound(
                positions@[i as int].price as int,
                SCALE as int + shock_for(shocks, positions@[i as int].symbol@) as int,
                AMOUNT_MAX as int,
                SCALE as int + SHOCK_MAX,
            );
            lemma_mul_bound(
                positions@[i as int].quantity as int,
                spec_new_price(
                    positions@[i as int].price as int,
                    shock_for(shocks, positions@[i as int].symbol@) as int,
                ),
                AMOUNT_MAX as int,
                SHOCKED_PRICE_MAX as int,
            );
        }
        let p = &positions[i];
        let h = lookup_shock(&scenario.shocks, &p.symbol);
        let new_price = div_floor(p.price * (SCALE + h), SCALE);
        total = total + p.quantity * new_price;
        i = i + 1;
    }
    proof {
        assert(positions@.take(positions@.len() as int) =~= positions@);
    }
    let pnl = total - initial;
    let exposure_after: i128;
    let drawdown_after: i128;
    if initial <= 0 {
        exposure_after = 0;
        drawdown_after = 0;
    } else {
        proof {
            lemma_div_bounds(total as int * SCALE, initial as int);
        }
        exposure_after = div_floor(total * SCALE, initial);
        let raw = initial - total;
        if raw <= 0 {
            drawdown_after = 0;
        } else {
            proof {
                lemma_div_bounds(raw as int * 100 * SCALE, initial as int);
            }
            drawdown_after = div_floor(raw * 100 * SCALE, initial);
        }
    }
    StressResult {
        name: scenario.name.clone(),
        pnl,
        exposure_after,
        drawdown_after,
    }
}

/// Run every scenario over the position set; results keep the scenario
/// order.
pub fn stress_test(positions: &Vec<Position>, scenarios: &Vec<StressScenario>) -> (results: Vec<
    StressResult>)
    requires
        positions_ok(positions@),
        scenarios_ok(scenarios@),
    ensures
        results@.len() == scenarios@.len(),
        forall|i: int|
            0 <= i < scenarios@.len() ==> {
                &&& (#[trigger] results@[i]).name@ == scenarios@[i].name@
                &&& results@[i].pnl as int == spec_scenario_pnl(positions@, scenarios@[i].shocks@)
                &&& results@[i].exposure_after as int == spec_exposure_after(
                    positions@,
                    scenarios@[i].shocks@,
                )
                &&& results@[i].drawdown_after as int == spec_drawdown_after(
                    positions@,
                    scenarios@[i].shocks@,
                )
            },
{
    let initial = crate::metrics::net_position_value(positions);
    let mut results: Vec<StressResult> = Vec::new();
    let mut i: usize = 0;
    while i < scenarios.len()
        invariant
            0 <= i <= scenarios@.len(),
            positions_ok(positions@),
            scenarios_ok(scenarios@),
            initial as int == net_sum(positions@),
            results@.len() == i,
            forall|j: int|
                0 <= j < i ==> {
                    &&& (#[trigger] results@[j]).name@ == scenarios@[j].name@
                    &&& results@[j].pnl as int == spec_scenario_pnl(
                        positions@,
                        scenarios@[j].shocks@,
                    )
                    &&& results@[j].exposure_after as int == spec_exposure_after(
                        positions@,
                        scenarios@[j].shocks@,
                    )
                    &&& results@[j].drawdown_after as int == spec_drawdown_after(
                        positions@,
                        scenarios@[j].shocks@,
                    )
                },
        decreases scenarios@.len() - i,
    {
        let r = run_scenario(positions, &scenarios[i], initial);
        results.push(r);
        i = i + 1;
    }
    results
}

/// With every shock zero a scenario moves nothing: no P&L, an exposure
/// ratio of exactly one (zero for a non-positive initial value), and no
/// drawdown.
pub proof fn lemma_zero_shocks_neutral(positions: Seq<Position>, shocks: Seq<(String, i128)>)
    requires
        positions_ok(positions),
        forall|i: int| 0 <= i < shocks.len() ==> #[trigger] shocks[i].1 == 0,
    ensures
        spec_scenario_pnl(positions, shocks) == 0,
        net_sum(positions) > 0 ==> spec_exposure_after(positions, shocks) == SCALE,
        net_sum(positions) <= 0 ==> spec_exposure_after(positions, shocks) == 0,
        spec_drawdown_after(positions, shocks) == 0,
{
    lemma_zero_shocks_total(positions, shocks);
    let initial = net_sum(positions);
    if initial > 0 {
        vstd::arithmetic::div_mod::lemma_div_multiples_vanish(SCALE as int, initial);
        assert(initial * SCALE == SCALE as int * initial) by (nonlinear_arith);
    }
}

proof fn lemma_zero_shock_for(shocks: Seq<(String, i128)>, sym: Seq<char>)
    requires
        forall|i: int| 0 <= i < shocks.len() ==> #[trigger] shocks[i].1 == 0,
    ensures
        shock_for(shocks, sym) == 0,
    decreases shocks.len(),
{
    if shocks.len() == 0 {
    } else if shocks[0].0@ == sym {
    } else {
        lemma_zero_shock_for(shocks.drop_first(), sym);
    }
}

proof fn lemma_zero_shocks_total(positions: Seq<Position>, shocks: Seq<(String, i128)>)
    requires
        forall|i: int| 0 <= i < positions.len() ==> position_ok(#[trigger] positions[i]),
        forall|i: int| 0 <= i < shocks.len() ==> #[trigger] shocks[i].1 == 0,
    ensures
        total_after(positions, shocks) == net_sum(positions),
    decreases positions.len(),
{
    if positions.len() == 0 {
    } else {
        lemma_zero_shocks_total(positions.drop_last(), shocks);
        let p = positions.last();
        lemma_zero_shock_for(shocks, p.symbol@);
        vstd::arithmetic::div_mod::lemma_div_by_multiple(p.price as int, SCALE as int);
        assert(spec_new_price(p.price as int, 0) == p.price as int);
    }
}

} // verus!
