//! Trade admission control: a pure decision over a trade request, a snapshot
//! of the current risk state and a configured exposure limit.
//!
//! Three ordered checks; the first failing check rejects the trade:
//! 1. the current drawdown must not exceed the configured maximum;
//! 2. the post-trade exposure must not exceed the configured maximum;
//! 3. otherwise the trade is approved, echoing the post-trade exposure and
//!    the current drawdown as the projected one (an intentional
//!    simplification: no forward recomputation happens).
//!
//! The trade's buy/sell side is carried through but never signs the trade
//! value; that mirrors the service's actual behaviour.

use vstd::prelude::*;
use vstd::string::StringExecFns;
use crate::fixed::{AMOUNT_MAX, RATIO_MAX, div_floor, lemma_div_bounds, lemma_mul_bound};
use crate::metrics::{RiskState, risk_state_ok};
use crate::text::{format_pct, pct_digits};

verus! {

/// Default maximum drawdown fraction: 8%.
pub const DEFAULT_MAX_DRAWDOWN: i128 = 800;

/// Default current drawdown fraction: 0.
pub const DEFAULT_CURRENT_DRAWDOWN: i128 = 0;

/// Default maximum exposure ratio: 0.75.
pub const DEFAULT_MAX_EXPOSURE: i128 = 7500;

/// A trade submitted for admission. `side` is `"buy"` or `"sell"`; it is
/// accepted as input but takes no part in the exposure arithmetic.
pub struct TradeRequest {
    pub symbol: String,
    pub side: String,
    pub quantity: i128,
    pub price: i128,
    pub portfolio_value: i128,
    pub max_drawdown: i128,
    pub current_drawdown: i128,
}

/// The bounds a request must respect.
pub open spec fn trade_request_ok(t: TradeRequest) -> bool {
    &&& -AMOUNT_MAX <= t.quantity <= AMOUNT_MAX
    &&& 0 <= t.price <= AMOUNT_MAX
    &&& t.max_drawdown > i128::MIN
    &&& t.current_drawdown > i128::MIN
}

/// The admission decision.
pub struct TradeDecision {
    pub approved: bool,
    pub reason: String,
    pub post_trade_exposure: Option<i128>,
    pub projected_drawdown: Option<i128>,
    pub timestamp: u64,
}

/// Exposure after the trade: current exposure times portfolio value plus
/// the trade value, over the portfolio value; zero when the portfolio value
/// is not positive.
pub open spec fn spec_post_trade_exposure(te: int, pv: int, tv: int) -> int {
    if pv <= 0 {
        0
    } else {
        (te * pv + tv) / pv
    }
}

/// The rejection reason when the current drawdown exceeds the maximum,
/// citing both percentages.
pub open spec fn drawdown_reason(cd: int, md: int) -> Seq<char> {
    "Current drawdown "@ + pct_digits(cd) + "% exceeds maximum "@ + pct_digits(md) + "%"@
}

/// The rejection reason when the post-trade exposure exceeds the maximum,
/// citing both percentages.
pub open spec fn exposure_reason(post: int, cap: int) -> Seq<char> {
    "Post-trade exposure "@ + pct_digits(post) + "% exceeds maximum "@ + pct_digits(cap) + "%"@
}

/// The approval reason.
pub open spec fn approved_reason() -> Seq<char> {
    "Within exposure limits"@
}

fn render_two_pct_reason(head: &str, a: i128, mid: &str, b: i128, tail: &str) -> (r: String)
    requires
        a > i128::MIN,
        b > i128::MIN,
    ensures
        r@ == head@ + pct_digits(a as int) + mid@ + pct_digits(b as int) + tail@,
{
    let mut s = String::from_str(head);
    s.append(format_pct(a).as_str());
    s.append(mid);
    s.append(format_pct(b).as_str());
    s.append(tail);
    proof {
        assert(s@ =~= head@ + pct_digits(a as int) + mid@ + pct_digits(b as int) + tail@);
    }
    s
}

/// Decide whether a trade is admitted, against the given risk-state
/// snapshot and maximum exposure. Reads the state, never mutates it.
pub fn validate_trade(req: &TradeRequest, state: &RiskState, max_exposure: i128, now: u64) -> (d:
    TradeDecision)
    requires
        trade_request_ok(*req),
        risk_state_ok(*state),
        max_exposure > i128::MIN,
    ensures
        d.timestamp == now,
        ({
            let cd = req.current_drawdown as int;
            let md = req.max_drawdown as int;
            let tv = req.quantity as int * req.price as int;
            let post = spec_post_trade_exposure(
                state.total_exposure as int,
                req.portfolio_value as int,
                tv,
            );
            if cd > md {
                &&& !d.approved
                &&& d.reason@ == drawdown_reason(cd, md)
                &&& d.post_trade_exposure is None
                &&& d.projected_drawdown is None
            } else if post > max_exposure as int {
                &&& !d.approved
                &&& d.reason@ == exposure_reason(post, max_exposure as int)
                &&& d.post_trade_exposure matches Some(p) && p as int == post
                &&& d.projected_drawdown is None
            } else {
                &&& d.approved
                &&& d.reason@ == approved_reason()
                &&& d.post_trade_exposure matches Some(p) && p as int == post
                &&& d.projected_drawdown == Some(state.drawdown)
            }
        }),
{
    if req.current_drawdown > req.max_drawdown {
        return TradeDecision {
            approved: false,
            reason: render_two_pct_reason(
                "Current drawdown ",
                req.current_drawdown,
                "% exceeds maximum ",
                req.max_drawdown,
                "%",
            ),
            post_trade_exposure: None,
            projected_drawdown: None,
            timestamp: now,
        };
    }
    proof {
        lemma_mul_bound(
            req.quantity as int,
            req.price as int,
            AMOUNT_MAX as int,
            AMOUNT_MAX as int,
        );
    }
    let trade_value = req.quantity * req.price;
    let post_trade_exposure: i128 = if req.portfolio_value > 0 {
        proof {
            lemma_div_bounds(trade_value as int, req.portfolio_value as int);
            vstd::arithmetic::div_mod::lemma_hoist_over_denominator(
                trade_value as int,
                state.total_exposure as int,
                req.portfolio_value as nat,
            );
            assert(state.total_exposure as int * req.portfolio_value as int
                == req.portfolio_value as int * state.total_exposure as int)
                by (nonlinear_arith);
        }
        state.total_exposure + div_floor(trade_value, req.portfolio_value)
    } else {
        0
    };
    if post_trade_exposure > max_exposure {
        return TradeDecision {
            approved: false,
            reason: render_two_pct_reason(
                "Post-trade exposure ",
                post_trade_exposure,
                "% exceeds maximum ",
                max_exposure,
                "%",
            ),
            post_trade_exposure: Some(post_trade_exposure),
            projected_drawdown: None,
            timestamp: now,
        };
    }
    let reason = String::from_str("Within exposure limits");
    TradeDecision {
        approved: true,
        reason,
        post_trade_exposure: Some(post_trade_exposure),
        projected_drawdown: Some(state.drawdown),
        timestamp: now,
    }
}

} // verus!
