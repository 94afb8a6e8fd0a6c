//! Scales of the fixed-point quantities, and the limits within which every
//! intermediate result fits into 128 bits.
//!
//! * An *input* (a quote, a cash amount, an exchange rate, a percentage) is a
//!   whole number of ten-thousandths.
//! * A *value* is a whole number of hundred-millionths of a native currency
//!   unit: the product of a quote and an exchange rate.
//! * A *plan amount* (a budget, the cost of a purchase) is a whole number of
//!   10^-14 native currency units: the product of a value and a percentage.

use vstd::prelude::*;

verus! {

/// Inputs are whole numbers of `1 / SCALE`.
pub const SCALE: u64 = 10_000;

/// Plan amounts per input amount: `100 * SCALE * SCALE`.
pub const PLAN_SCALE: u128 = 10_000_000_000;

/// One hundred percent, in ten-thousandths of a percent: `100 * SCALE`.
pub const HUNDRED_PERCENT: u64 = 1_000_000;

/// Largest quote, in ten-thousandths.
pub const MAX_QUOTE: u64 = 10_000_000_000;

/// Largest share count.
pub const MAX_SHARES: u64 = 1_000_000_000;

/// Largest exchange rate, in ten-thousandths.
pub const MAX_RATE: u64 = 10_000_000;

/// Largest percentage (target allocation, growth rate or yearly loss), in
/// ten-thousandths of a percent.
pub const MAX_PERCENT: u64 = 10_000_000;

/// Largest size of a projected value, in hundred-millionths.
pub const MAX_PROJECTED: u128 = 10_000_000_000_000_000_000_000_000_000_000;

/// Largest number of holdings in one portfolio.
pub const MAX_HOLDINGS: usize = 10_000;

/// The input scale as a mathematical integer.
pub open spec fn scale() -> int {
    10_000
}

/// Plan amounts per input amount, as a mathematical integer.
pub open spec fn plan_scale() -> int {
    100 * scale() * scale()
}

/// One hundred percent, as a mathematical integer.
pub open spec fn hundred_percent() -> int {
    100 * scale()
}

} // verus!
