//! A verified quantitative risk and simulation engine.
//!
//! The crate computes portfolio risk metrics (exposure, drawdown, parametric
//! and Monte Carlo Value-at-Risk with its conditional variant), gates trade
//! requests against configured limits, applies named stress scenarios to a
//! position set, and produces aggregate performance statistics for a list of
//! strategies.
//!
//! All fractional quantities are fixed-point integers: an `i128` counts
//! 1/10_000ths of the underlying real value (see [`fixed::SCALE`]). Every
//! formula is stated exactly over that representation, with floor division as
//! the single rounding convention.

pub mod fixed;
pub mod stats;
pub mod metrics;
pub mod text;
pub mod admission;
pub mod stress;
pub mod rng;
pub mod montecarlo;
pub mod backtest;
