//! Equality of recommendations, and their order by cost.

use vstd::prelude::*;
use vstd::std_specs::cmp::{PartialEqSpecImpl, PartialOrdSpecImpl};
use core::cmp::Ordering;
use crate::rebalance::CalculationResult;

verus! {

impl PartialEq for CalculationResult {
    /// Two recommendations are equal where symbol, shares and cost are. An
    /// undefined cost equals no cost, not even another undefined one.
    fn eq(&self, other: &Self) -> (equal: bool) {
        let same_cost = match (self.cost, other.cost) {
            (Some(x), Some(y)) => x == y,
            _ => false,
        };
        self.symbol == other.symbol && self.new_number_of_shares == other.new_number_of_shares
            && same_cost
    }
}

impl PartialEqSpecImpl for CalculationResult {
    open spec fn obeys_eq_spec() -> bool {
        true
    }

    open spec fn eq_spec(&self, other: &Self) -> bool {
        self@ == other@ && self@.cost is Some
    }
}

impl PartialOrd for CalculationResult {
    /// Recommendations are ordered by cost alone; one of undefined cost has
    /// no place in the order.
    fn partial_cmp(&self, other: &Self) -> (order: Option<Ordering>) {
        match (self.cost, other.cost) {
            (Some(x), Some(y)) => {
                if x < y {
                    Some(Ordering::Less)
                } else if x > y {
                    Some(Ordering::Greater)
                } else {
                    Some(Ordering::Equal)
                }
            },
            _ => None,
        }
    }
}

impl PartialOrdSpecImpl for CalculationResult {
    open spec fn obeys_partial_cmp_spec() -> bool {
        true
    }

    open spec fn partial_cmp_spec(&self, other: &Self) -> Option<Ordering> {
        match (self@.cost, other@.cost) {
            (Some(x), Some(y)) => {
                if x < y {
                    Some(Ordering::Less)
                } else if x > y {
                    Some(Ordering::Greater)
                } else {
                    Some(Ordering::Equal)
                }
            },
            _ => None,
        }
    }
}

} // verus!
