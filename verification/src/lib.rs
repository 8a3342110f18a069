//! Core engine of a pool-based, over-collateralized money market: interest
//! accrual with a borrow index, share-token exchange rates, collateral-factor
//! policy with timelocked decreases, rewards batches, a stablecoin market with
//! per-borrower discounts, and the liquidation pathway that ties them together.
//!
//! All ratios are WAD (10^18) fixed-point values; amounts are unsigned
//! integers and every product of two WAD-scale values is computed through a
//! 256-bit intermediate so that no multiplication can overflow before its
//! final division.

pub mod math;

pub mod store;

pub mod errors;

pub mod interest_rate_model;

pub mod market;

pub mod controller;

pub mod risk_profile;

pub mod rewards;

pub mod policies;

pub mod ush_market;

pub mod discount;

pub mod oracle;

pub mod laws;

pub mod protocol;

