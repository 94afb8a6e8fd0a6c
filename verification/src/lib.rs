//! Exact fixed-point arithmetic for a small portfolio calculator: valuation of
//! holdings, a purchase plan that moves a portfolio toward its target
//! allocations, and a projection of its value at retirement.
//!
//! Every quantity is a whole number of some fixed fraction of a currency unit
//! (see [`units`]), so that sums, products and comparisons are exact and the
//! contracts can be stated over mathematical integers.

pub mod units;
pub mod model;
pub mod valuation;
pub mod rebalance;
pub mod plan_laws;
pub mod allocation;
pub mod retirement;
pub mod text;
pub mod report;
pub mod ranking;
