use risk_engine::backtest::{backtest_from_returns, run_backtest, run_strategy_backtest};
use risk_engine::montecarlo::{mc_from_samples, mc_var_request, monte_carlo_var};

#[test]
fn monte_carlo_empty_returns_or_zero_iterations() {
    let empty: Vec<i128> = vec![];
    assert_eq!(monte_carlo_var(&empty, 100, 9_900, Some(1)), (0, 0));
    let rets: Vec<i128> = vec![100, -100];
    assert_eq!(monte_carlo_var(&rets, 0, 9_900, Some(1)), (0, 0));
}

#[test]
fn monte_carlo_zero_variance_short_circuits() {
    let rets: Vec<i128> = vec![250, 250, 250];
    assert_eq!(monte_carlo_var(&rets, 100, 9_900, Some(1)), (0, 0));
    assert_eq!(monte_carlo_var(&rets, 100, 9_900, None), (0, 0));
}

#[test]
fn monte_carlo_seeded_runs_are_reproducible() {
    let rets: Vec<i128> = vec![10_000_000, -10_000_000, 5_000_000, -5_000_000];
    let first = monte_carlo_var(&rets, 200, 9_900, Some(42));
    let second = monte_carlo_var(&rets, 200, 9_900, Some(42));
    assert_eq!(first, second);
}

#[test]
fn monte_carlo_distinct_seeds_draw_distinct_samples() {
    let rets: Vec<i128> = vec![10_000_000, -10_000_000, 5_000_000, -5_000_000];
    let a = monte_carlo_var(&rets, 200, 9_900, Some(42));
    let b = monte_carlo_var(&rets, 200, 9_900, Some(43));
    assert_ne!(a, b);
}

#[test]
fn monte_carlo_var_never_exceeds_cvar() {
    let rets: Vec<i128> = vec![300, -200, 150, -50, 80];
    for seed in [None, Some(7), Some(8)] {
        let (var, cvar) = monte_carlo_var(&rets, 500, 9_500, seed);
        assert!(0 <= var);
        assert!(var <= cvar);
    }
}

#[test]
fn mc_from_samples_reads_the_loss_quantile() {
    // sorted: [-400, -300, -100, 50, 200]; confidence 0.5 over 5 samples
    // puts the quantile at floor(0.5 * 5) = 2: var = 100.
    // tail among the first three samples at most -100: all three,
    // cvar = (400 + 300 + 100) / 3 = 266.
    let samples: Vec<i128> = vec![200, -300, -100, 50, -400];
    let (var, cvar) = mc_from_samples(samples, 5_000);
    assert_eq!(var, 100);
    assert_eq!(cvar, 266);
}

#[test]
fn mc_from_samples_falls_back_without_tail() {
    // sorted: [100, 200, 300]; quantile index 0, var = 0; no sample is
    // at most -0 among the first one, so cvar = var * 1.3 = 0.
    let samples: Vec<i128> = vec![300, 100, 200];
    let (var, cvar) = mc_from_samples(samples, 9_900);
    assert_eq!(var, 0);
    assert_eq!(cvar, 0);
}

#[test]
fn mc_request_rejects_empty_returns() {
    let empty: Vec<i128> = vec![];
    let res = mc_var_request(&empty, 100, 9_900, Some(1));
    match res {
        Err(e) => assert_eq!(e, "returns array cannot be empty"),
        Ok(_) => panic!("an empty return series must be rejected"),
    }
}

#[test]
fn mc_request_caps_iterations_and_clamps_confidence() {
    // a zero-variance series short-circuits the simulation, so the echoed
    // parameters can be checked even at the iteration cap
    let flat: Vec<i128> = vec![250, 250];
    let o = mc_var_request(&flat, 2_000_000, 30_000, Some(5)).unwrap();
    assert_eq!(o.iterations, 1_000_000);
    assert_eq!(o.confidence, 9_990);
    assert_eq!((o.var, o.cvar), (0, 0));
    let rets: Vec<i128> = vec![100, -100];
    let o2 = mc_var_request(&rets, 10, 2_000, Some(5)).unwrap();
    assert_eq!(o2.iterations, 10);
    assert_eq!(o2.confidence, 5_000);
}

#[test]
fn mc_request_reproducible_with_seed() {
    let rets: Vec<i128> = vec![10_000_000, -10_000_000];
    let a = mc_var_request(&rets, 300, 9_900, Some(11)).unwrap();
    let b = mc_var_request(&rets, 300, 9_900, Some(11)).unwrap();
    assert_eq!((a.var, a.cvar), (b.var, b.cvar));
}

#[test]
fn backtest_statistics_of_fixed_series() {
    // all positive and equal: zero deviation, zero drawdown, full win rate
    let rets: Vec<i128> = vec![50, 50, 50];
    let r = backtest_from_returns("steady", &rets);
    assert_eq!(r.strategy, "steady");
    assert_eq!(r.total_return, 150);
    assert_eq!(r.sharpe, 0);
    assert_eq!(r.max_drawdown, 0);
    assert_eq!(r.win_rate, 10_000);
    assert_eq!(r.trades, 3);
}

#[test]
fn backtest_win_rate_counts_strict_gains() {
    let rets: Vec<i128> = vec![100, -100, 0, 25];
    let r = backtest_from_returns("mixed", &rets);
    assert_eq!(r.win_rate, 5_000);
    assert_eq!(r.total_return, 25);
}

#[test]
fn backtest_drawdown_is_the_peak_gap() {
    // peak stays at 80 when the series dips to -40: gap 120
    let rets: Vec<i128> = vec![80, -40, 60];
    let r = backtest_from_returns("dip", &rets);
    assert_eq!(r.max_drawdown, 120);
}

#[test]
fn backtest_seeded_runs_are_reproducible() {
    let a = run_strategy_backtest("momentum", 200, Some(5));
    let b = run_strategy_backtest("momentum", 200, Some(5));
    assert_eq!(a.total_return, b.total_return);
    assert_eq!(a.sharpe, b.sharpe);
    assert_eq!(a.max_drawdown, b.max_drawdown);
    assert_eq!(a.win_rate, b.win_rate);
}

#[test]
fn backtest_distinct_seeds_differ() {
    let a = run_strategy_backtest("momentum", 200, Some(42));
    let b = run_strategy_backtest("momentum", 200, Some(43));
    assert_ne!(
        (a.total_return, a.sharpe, a.max_drawdown, a.win_rate),
        (b.total_return, b.sharpe, b.max_drawdown, b.win_rate),
    );
}

#[test]
fn backtest_bounds_hold_for_entropy_runs() {
    let r = run_strategy_backtest("live", 150, None);
    assert!(0 <= r.win_rate && r.win_rate <= 10_000);
    assert_eq!(r.trades, 150);
}

#[test]
fn run_backtest_keeps_strategy_order() {
    let strategies: Vec<String> =
        vec!["alpha".to_string(), "beta".to_string(), "gamma".to_string()];
    let rs = run_backtest(&strategies, 100, Some(3));
    assert_eq!(rs.len(), 3);
    assert_eq!(rs[0].strategy, "alpha");
    assert_eq!(rs[1].strategy, "beta");
    assert_eq!(rs[2].strategy, "gamma");
    for r in &rs {
        assert!(0 <= r.win_rate && r.win_rate <= 10_000);
        assert_eq!(r.trades, 100);
    }
}
