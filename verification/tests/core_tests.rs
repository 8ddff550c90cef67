use risk_engine::admission::{validate_trade, TradeRequest, DEFAULT_MAX_EXPOSURE};
use risk_engine::metrics::{
    compute_cvar, compute_drawdown, compute_drawdown_from_positions, compute_exposure,
    compute_var, evaluate_risk, Position, RiskState,
};
use risk_engine::stats::{optimize_signals, standard_deviation, variance};
use risk_engine::stress::{stress_test, StressScenario};

fn pos(symbol: &str, quantity: i128, price: i128) -> Position {
    Position { symbol: symbol.to_string(), quantity, price }
}

#[test]
fn test_optimize_signals() {
    let v: Vec<i128> = vec![100_000, 200_000, 300_000];
    let avg = optimize_signals(&v);
    assert_eq!(avg, 200_000);
}

#[test]
fn variance_and_std_of_plain_series() {
    // 10.0, 20.0, 30.0: population variance is 66.6667, std is 8.1649.
    let v: Vec<i128> = vec![100_000, 200_000, 300_000];
    let var = variance(&v);
    // (100000 - 200000)^2 * 2 / 3 / 1 ... exact integer: 20000000000 / 3
    assert_eq!(var, 6_666_666_666);
    let sd = standard_deviation(&v);
    assert_eq!(sd, 81_649);
}

#[test]
fn std_squares_back_to_variance() {
    // sd^2 <= var < (sd + 1)^2 for several series.
    let cases: Vec<Vec<i128>> = vec![
        vec![100_000, 200_000, 300_000],
        vec![-50_000, 70_000, 10_000, 10_000],
        vec![12_345],
        vec![0, 0, 0],
    ];
    for v in cases {
        let var = variance(&v);
        let sd = standard_deviation(&v);
        assert!(sd * sd <= var);
        assert!(var < (sd + 1) * (sd + 1));
    }
}

#[test]
fn exposure_of_empty_portfolio_is_zero() {
    let positions: Vec<Position> = vec![];
    assert_eq!(compute_exposure(&positions, 10_000_000), 0);
}

#[test]
fn exposure_of_single_position() {
    // one unit at 100.0 against a portfolio of 1000.0 is 0.1
    let positions = vec![pos("BTC", 10_000, 1_000_000)];
    assert_eq!(compute_exposure(&positions, 10_000_000), 1_000);
}

#[test]
fn exposure_counts_short_positions_by_magnitude() {
    let positions = vec![pos("BTC", -10_000, 1_000_000)];
    assert_eq!(compute_exposure(&positions, 10_000_000), 1_000);
    assert_eq!(compute_exposure(&positions, 0), 0);
    assert_eq!(compute_exposure(&positions, -5), 0);
}

#[test]
fn parametric_var_z_score_tiers() {
    // one unit at 100.0, portfolio 1000.0: var = z * 0.02 * 100
    let positions = vec![pos("BTC", 10_000, 1_000_000)];
    let pv = 10_000_000;
    // confidence 0.99 -> z = 2.33: 4.66
    assert_eq!(compute_var(&positions, pv, 9_900), 46_600);
    // confidence 0.95 -> z = 1.65: 3.30
    assert_eq!(compute_var(&positions, pv, 9_500), 33_000);
    // confidence 0.80 -> z = 1.28: 2.56
    assert_eq!(compute_var(&positions, pv, 8_000), 25_600);
    // tier boundaries are inclusive on the high side
    assert_eq!(compute_var(&positions, pv, 9_899), 33_000);
    assert_eq!(compute_var(&positions, pv, 9_499), 25_600);
}

#[test]
fn parametric_var_degenerate_inputs() {
    let positions = vec![pos("BTC", 10_000, 1_000_000)];
    assert_eq!(compute_var(&vec![], 10_000_000, 9_900), 0);
    assert_eq!(compute_var(&positions, 0, 9_900), 0);
    assert_eq!(compute_var(&positions, -1, 9_900), 0);
}

#[test]
fn cvar_of_zero_var_is_zero_for_any_confidence() {
    for conf in [0, 5_000, 8_000, 9_500, 9_900, 9_990] {
        assert_eq!(compute_cvar(0, conf), 0);
        assert_eq!(compute_cvar(-42, conf), 0);
    }
}

#[test]
fn cvar_multiplier_tiers() {
    assert_eq!(compute_cvar(10_000, 9_900), 13_000);
    assert_eq!(compute_cvar(10_000, 9_500), 12_500);
    assert_eq!(compute_cvar(10_000, 8_000), 12_000);
}

#[test]
fn drawdown_from_positions_shortfall() {
    // net value 900.0 against portfolio 1000.0: 10% drawdown
    let positions = vec![pos("BTC", 10_000, 9_000_000)];
    assert_eq!(compute_drawdown_from_positions(&positions, 10_000_000), 100_000);
    // net value above the portfolio value: no drawdown
    let heavy = vec![pos("BTC", 20_000, 9_000_000)];
    assert_eq!(compute_drawdown_from_positions(&heavy, 10_000_000), 0);
    // empty positions: the whole portfolio is a 100% (capped) drawdown
    assert_eq!(compute_drawdown_from_positions(&vec![], 10_000_000), 1_000_000);
    assert_eq!(compute_drawdown_from_positions(&positions, 0), 0);
}

#[test]
fn equity_series_max_drawdown() {
    // 100.0, 120.0, 90.0: peak 120, trough 90: 25%
    let equity: Vec<i128> = vec![1_000_000, 1_200_000, 900_000];
    assert_eq!(compute_drawdown(&equity), 250_000);
    // fewer than two points: no drawdown
    assert_eq!(compute_drawdown(&vec![1_000_000]), 0);
    assert_eq!(compute_drawdown(&vec![]), 0);
}

#[test]
fn evaluate_risk_updates_state_and_reports() {
    let mut state = RiskState::default();
    let positions = vec![pos("BTC", 10_000, 1_000_000)];
    let r = evaluate_risk(&mut state, &positions, 10_000_000, 9_900, 777);
    assert_eq!(r.exposure, 1_000);
    assert_eq!(r.value_at_risk, 46_600);
    assert_eq!(r.conditional_var, 60_580);
    assert_eq!(r.drawdown, 900_000);
    assert_eq!(r.timestamp, 777);
    assert_eq!(state.total_exposure, 1_000);
    assert_eq!(state.active_positions, 1);
    assert_eq!(state.var, 46_600);
    assert_eq!(state.cvar, 60_580);
    assert_eq!(state.drawdown, 900_000);
    assert_eq!(state.last_update, 777);
}

#[test]
fn state_snapshots_are_identical_without_mutation() {
    let mut state = RiskState::default();
    let positions = vec![pos("ETH", 10_000, 2_000_000)];
    evaluate_risk(&mut state, &positions, 40_000_000, 9_900, 5);
    let s1 = state.snapshot();
    let s2 = state.snapshot();
    assert_eq!(s1, s2);
    assert_eq!(s1, state);
}

#[test]
fn trade_rejected_on_drawdown_breach() {
    let state = RiskState::default();
    let req = TradeRequest {
        symbol: "BTC".to_string(),
        side: "buy".to_string(),
        quantity: 10_000,
        price: 1_000_000,
        portfolio_value: 10_000_000,
        max_drawdown: 800,
        current_drawdown: 900,
    };
    let d = validate_trade(&req, &state, DEFAULT_MAX_EXPOSURE, 1);
    assert!(!d.approved);
    assert_eq!(d.reason, "Current drawdown 9.00% exceeds maximum 8.00%");
    assert!(d.post_trade_exposure.is_none());
    assert!(d.projected_drawdown.is_none());
}

#[test]
fn trade_rejected_on_exposure_breach() {
    let mut state = RiskState::default();
    state.total_exposure = 5_000;
    let req = TradeRequest {
        symbol: "BTC".to_string(),
        side: "buy".to_string(),
        quantity: 10_000,
        price: 3_000_000,
        portfolio_value: 10_000_000,
        max_drawdown: 800,
        current_drawdown: 0,
    };
    let d = validate_trade(&req, &state, DEFAULT_MAX_EXPOSURE, 2);
    assert!(!d.approved);
    assert_eq!(d.post_trade_exposure, Some(8_000));
    assert_eq!(d.reason, "Post-trade exposure 80.00% exceeds maximum 75.00%");
    assert!(d.projected_drawdown.is_none());
}

#[test]
fn trade_approved_within_limits() {
    let mut state = RiskState::default();
    state.total_exposure = 1_000;
    state.drawdown = 20_000;
    let req = TradeRequest {
        symbol: "ETH".to_string(),
        side: "sell".to_string(),
        quantity: 10_000,
        price: 1_000_000,
        portfolio_value: 10_000_000,
        max_drawdown: 800,
        current_drawdown: 0,
    };
    let d = validate_trade(&req, &state, DEFAULT_MAX_EXPOSURE, 3);
    assert!(d.approved);
    assert_eq!(d.reason, "Within exposure limits");
    assert_eq!(d.post_trade_exposure, Some(2_000));
    assert_eq!(d.projected_drawdown, Some(20_000));
    assert_eq!(d.timestamp, 3);
}

#[test]
fn trade_rejection_reason_formats_negative_percentages() {
    let state = RiskState::default();
    let req = TradeRequest {
        symbol: "BTC".to_string(),
        side: "buy".to_string(),
        quantity: 0,
        price: 0,
        portfolio_value: 0,
        max_drawdown: -800,
        current_drawdown: -500,
    };
    let d = validate_trade(&req, &state, DEFAULT_MAX_EXPOSURE, 4);
    assert!(!d.approved);
    assert_eq!(d.reason, "Current drawdown -5.00% exceeds maximum -8.00%");
}

#[test]
fn stress_with_zero_shocks_is_neutral() {
    let positions = vec![pos("BTC", 10_000, 1_000_000), pos("ETH", 20_000, 500_000)];
    let scenarios = vec![
        StressScenario { name: "calm".to_string(), shocks: vec![] },
        StressScenario { name: "flat".to_string(), shocks: vec![("BTC".to_string(), 0)] },
    ];
    let results = stress_test(&positions, &scenarios);
    assert_eq!(results.len(), 2);
    for r in &results {
        assert_eq!(r.pnl, 0);
        assert_eq!(r.exposure_after, 10_000);
        assert_eq!(r.drawdown_after, 0);
    }
    assert_eq!(results[0].name, "calm");
    assert_eq!(results[1].name, "flat");
}

#[test]
fn stress_crash_scenario() {
    // one unit at 100.0; a -20% shock loses 20.0
    let positions = vec![pos("BTC", 10_000, 1_000_000)];
    let scenarios = vec![StressScenario {
        name: "crash".to_string(),
        shocks: vec![("BTC".to_string(), -2_000), ("ETH".to_string(), 5_000)],
    }];
    let results = stress_test(&positions, &scenarios);
    assert_eq!(results.len(), 1);
    // pnl is scaled by SCALE * SCALE: -20.0 is -2 * 10^9
    assert_eq!(results[0].pnl, -2_000_000_000);
    assert_eq!(results[0].exposure_after, 8_000);
    assert_eq!(results[0].drawdown_after, 200_000);
}

#[test]
fn stress_unknown_symbols_are_unshocked() {
    let positions = vec![pos("SOL", 10_000, 1_000_000)];
    let scenarios = vec![StressScenario {
        name: "btc-only".to_string(),
        shocks: vec![("BTC".to_string(), -9_000)],
    }];
    let results = stress_test(&positions, &scenarios);
    assert_eq!(results[0].pnl, 0);
    assert_eq!(results[0].exposure_after, 10_000);
    assert_eq!(results[0].drawdown_after, 0);
}
