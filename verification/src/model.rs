//! The input snapshot and its mathematical view.

use vstd::prelude::*;
use crate::units::{MAX_HOLDINGS, MAX_PERCENT, MAX_QUOTE, MAX_RATE, MAX_SHARES};

verus! {

/// One position of the portfolio.
pub struct Stock {
    /// Identifier of the asset.
    pub symbol: String,
    /// Unit price in the asset's own currency, in ten-thousandths.
    pub quote: u64,
    /// Shares currently held.
    pub number_of_shares: u64,
    /// Share of the portfolio this position should have, in ten-thousandths
    /// of a percent.
    pub target_allocation: u64,
    /// Whether the quote is in the foreign currency.
    pub is_usd: bool,
}

/// Mathematical view of a [`Stock`].
pub struct Holding {
    pub symbol: Seq<char>,
    pub quote: int,
    pub shares: int,
    pub target: int,
    pub foreign: bool,
}

impl View for Stock {
    type V = Holding;

    open spec fn view(&self) -> Holding {
        Holding {
            symbol: self.symbol@,
            quote: self.quote as int,
            shares: self.number_of_shares as int,
            target: self.target_allocation as int,
            foreign: self.is_usd,
        }
    }
}

impl Holding {
    /// The holding is small enough for exact 128-bit arithmetic.
    pub open spec fn within_limits(self) -> bool {
        &&& 0 <= self.quote <= MAX_QUOTE
        &&& 0 <= self.shares <= MAX_SHARES
        &&& 0 <= self.target <= MAX_PERCENT
    }

    /// The same holding with another share count.
    pub open spec fn with_shares(self, shares: int) -> Holding {
        Holding { shares, ..self }
    }
}

/// The views of a sequence of stocks, in order.
pub open spec fn holdings(stocks: Seq<Stock>) -> Seq<Holding> {
    Seq::new(stocks.len(), |i: int| stocks[i]@)
}

/// Every holding is within limits and there are at most `MAX_HOLDINGS`.
pub open spec fn all_within_limits(hs: Seq<Holding>) -> bool {
    &&& hs.len() <= MAX_HOLDINGS
    &&& forall|i: int| 0 <= i < hs.len() ==> (#[trigger] hs[i]).within_limits()
}

impl Stock {
    /// Builds a position.
    pub fn new(
        symbol: String,
        quote: u64,
        number_of_shares: u64,
        target_allocation: u64,
        is_usd: bool,
    ) -> (stock: Stock)
        ensures
            stock@ == (Holding {
                symbol: symbol@,
                quote: quote as int,
                shares: number_of_shares as int,
                target: target_allocation as int,
                foreign: is_usd,
            }),
    {
        Stock { symbol, quote, number_of_shares, target_allocation, is_usd }
    }

    /// Tells whether the position is small enough for exact arithmetic.
    pub fn is_within_limits(&self) -> (ok: bool)
        ensures
            ok == self@.within_limits(),
    {
        self.quote <= MAX_QUOTE && self.number_of_shares <= MAX_SHARES && self.target_allocation
            <= MAX_PERCENT
    }
}

/// The whole input of one run.
pub struct Data {
    /// The positions, in the order in which they are reported.
    pub stocks: Vec<Stock>,
    /// Yearly spending in retirement, in ten-thousandths.
    pub annual_expenses: u64,
    /// Age at which retirement starts.
    pub target_retirement_age: i32,
    /// Age now.
    pub current_age: i32,
    /// Expected yearly growth, in ten-thousandths of a percent; negative for
    /// a yearly loss.
    pub target_growth_rate: i64,
    /// Native currency units per foreign currency unit, in ten-thousandths.
    pub usd_to_cad_exchange_rate: u64,
    /// Cash to be spent on purchases, in ten-thousandths.
    pub expected_contribution: u64,
}

/// Mathematical view of a [`Data`].
pub struct Snapshot {
    pub holdings: Seq<Holding>,
    pub annual_expenses: int,
    pub target_retirement_age: int,
    pub current_age: int,
    pub growth_rate: int,
    pub exchange_rate: int,
    pub contribution: int,
}

impl View for Data {
    type V = Snapshot;

    open spec fn view(&self) -> Snapshot {
        Snapshot {
            holdings: holdings(self.stocks@),
            annual_expenses: self.annual_expenses as int,
            target_retirement_age: self.target_retirement_age as int,
            current_age: self.current_age as int,
            growth_rate: self.target_growth_rate as int,
            exchange_rate: self.usd_to_cad_exchange_rate as int,
            contribution: self.expected_contribution as int,
        }
    }
}

impl Snapshot {
    /// The snapshot is small enough for exact 128-bit arithmetic.
    pub open spec fn within_limits(self) -> bool {
        &&& all_within_limits(self.holdings)
        &&& -MAX_PERCENT <= self.growth_rate <= MAX_PERCENT
        &&& 0 <= self.exchange_rate <= MAX_RATE
    }
}

/// Tells whether all positions are within limits and not too many.
pub fn stocks_within_limits(stocks: &Vec<Stock>) -> (ok: bool)
    ensures
        ok == all_within_limits(holdings(stocks@)),
{
    if stocks.len() > MAX_HOLDINGS {
        return false;
    }
    let mut i: usize = 0;
    while i < stocks.len()
        invariant
            i <= stocks.len(),
            stocks.len() <= MAX_HOLDINGS,
            forall|j: int| 0 <= j < i ==> (#[trigger] holdings(stocks@)[j]).within_limits(),
        decreases stocks.len() - i,
    {
        if !stocks[i].is_within_limits() {
            assert(!holdings(stocks@)[i as int].within_limits());
            return false;
        }
        i += 1;
    }
    true
}

impl Data {
    /// Tells whether the snapshot is small enough for exact arithmetic.
    pub fn is_within_limits(&self) -> (ok: bool)
        ensures
            ok == self@.within_limits(),
    {
        stocks_within_limits(&self.stocks) && -(MAX_PERCENT as i64) <= self.target_growth_rate
            && self.target_growth_rate <= MAX_PERCENT as i64 && self.usd_to_cad_exchange_rate
            <= MAX_RATE
    }
}

} // verus!
