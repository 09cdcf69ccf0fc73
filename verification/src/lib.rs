//! A verified single-asset market model: fixed-point option pricing,
//! realized-volatility estimation, and portfolio valuation.
//!
//! All monetary quantities, rates, and times are fixed-point values:
//! an `i64` counting micro-units (`fixed::SCALE` units make 1.0).

use vstd::prelude::*;

pub mod buyable;
pub mod fixed;
pub mod math;
pub mod options;
pub mod portfolio;
pub mod rng;
pub mod stock;
pub mod stock_market;
pub mod volatility;

verus! {

/// The error taxonomy of the library: pricing rejects degenerate
/// contract parameters, and the estimators reject histories that
/// would divide by zero.
#[derive(Clone, Copy, PartialEq, Eq, Structural, Debug)]
pub enum MarketError {
    InvalidPricingInput,
    DivisionByZero,
}

} // verus!
