//! The share that each holding has of the portfolio now.

use vstd::prelude::*;
use vstd::arithmetic::div_mod::lemma_fundamental_div_mod;
use crate::model::{all_within_limits, holdings, Data, Holding, Stock};
use crate::units::{hundred_percent, HUNDRED_PERCENT, MAX_RATE};
use crate::valuation::{
    calc_portfolio_val, calc_value_of_stock, lemma_value_bounds, max_value, total_value, value_of,
};

verus! {

/// `value` in ten-thousandths of a percent of `total`, rounded down, but not
/// to nothing: what is left of a value above zero is at least one unit.
pub open spec fn portion(value: int, total: int) -> int {
    let rounded = value * hundred_percent() / total;
    if rounded == 0 && value > 0 {
        1
    } else {
        rounded
    }
}

/// The share of a portfolio worth `total` that a holding has, in
/// ten-thousandths of a percent. A portfolio worth nothing has no shares: the
/// result is `None`.
pub open spec fn allocation_of(h: Holding, rate: int, total: int) -> Option<int> {
    if total == 0 {
        None
    } else {
        Some(portion(value_of(h, rate), total))
    }
}

/// One line of the allocation report.
pub struct Allocation {
    /// Identifier of the asset.
    pub symbol: String,
    /// Shares currently held.
    pub number_of_shares: u64,
    /// Share of the portfolio, in ten-thousandths of a percent; `None` where
    /// the portfolio is worth nothing.
    pub current_allocation: Option<u128>,
}

/// Mathematical view of an [`Allocation`].
pub struct Share {
    pub symbol: Seq<char>,
    pub shares: int,
    pub percent: Option<int>,
}

impl View for Allocation {
    type V = Share;

    open spec fn view(&self) -> Share {
        Share {
            symbol: self.symbol@,
            shares: self.number_of_shares as int,
            percent: match self.current_allocation {
                Some(a) => Some(a as int),
                None => None,
            },
        }
    }
}

/// The line of the allocation report for one holding.
pub open spec fn share_of(h: Holding, rate: int, total: int) -> Share {
    Share { symbol: h.symbol, shares: h.shares, percent: allocation_of(h, rate, total) }
}

/// The allocation report: one line per holding, in the order of the holdings,
/// each share taken of the total of these same holdings.
pub open spec fn portfolio_state(hs: Seq<Holding>, rate: int) -> Seq<Share> {
    Seq::new(hs.len(), |i: int| share_of(hs[i], rate, total_value(hs, rate)))
}

/// The views of a sequence of report lines, in order.
pub open spec fn shares(lines: Seq<Allocation>) -> Seq<Share> {
    Seq::new(lines.len(), |i: int| lines[i]@)
}

/// The share of a portfolio worth `total_value` that one position has.
pub fn current_allocation(stock: &Stock, usd_to_cad_exchange_rate: u64, total_value: u128) -> (line:
    Allocation)
    requires
        stock@.within_limits(),
        usd_to_cad_exchange_rate <= MAX_RATE,
    ensures
        line@ == share_of(stock@, usd_to_cad_exchange_rate as int, total_value as int),
{
    let value = calc_value_of_stock(stock, usd_to_cad_exchange_rate);
    proof {
        lemma_value_bounds(stock@, usd_to_cad_exchange_rate as int);
        assert(value * HUNDRED_PERCENT <= max_value() * HUNDRED_PERCENT) by (nonlinear_arith)
            requires
                value <= max_value(),
        ;
    }
    let current_allocation = if total_value == 0 {
        None
    } else {
        let rounded: u128 = value * (HUNDRED_PERCENT as u128) / total_value;
        if rounded == 0 && value > 0 {
            Some(1)
        } else {
            Some(rounded)
        }
    };
    Allocation {
        symbol: stock.symbol.clone(),
        number_of_shares: stock.number_of_shares,
        current_allocation,
    }
}

/// The allocation report of a snapshot.
pub fn current_portfolio_state(data: &Data) -> (lines: Vec<Allocation>)
    requires
        all_within_limits(data@.holdings),
        data@.exchange_rate <= MAX_RATE,
    ensures
        shares(lines@) == portfolio_state(data@.holdings, data@.exchange_rate),
{
    let ghost hs = data@.holdings;
    let rate = data.usd_to_cad_exchange_rate;
    let total = calc_portfolio_val(&data.stocks, rate);
    let mut lines: Vec<Allocation> = Vec::new();
    let mut i: usize = 0;
    while i < data.stocks.len()
        invariant
            i <= data.stocks.len(),
            hs == holdings(data.stocks@),
            all_within_limits(hs),
            rate <= MAX_RATE,
            total == total_value(hs, rate as int),
            lines.len() == i,
            forall|j: int|
                0 <= j < i ==> (#[trigger] lines[j])@ == share_of(
                    hs[j],
                    rate as int,
                    total as int,
                ),
        decreases data.stocks.len() - i,
    {
        assert(hs[i as int].within_limits() && hs[i as int] == data.stocks[i as int]@);
        let line = current_allocation(&data.stocks[i], rate, total);
        lines.push(line);
        i += 1;
    }
    assert(shares(lines@) =~= portfolio_state(hs, rate as int));
    lines
}

/// Sum of the shares that the holdings have of a portfolio worth `total`.
pub open spec fn sum_of_allocations(hs: Seq<Holding>, rate: int, total: int) -> int
    decreases hs.len(),
{
    if hs.len() == 0 {
        0
    } else {
        sum_of_allocations(hs.drop_last(), rate, total) + portion(value_of(hs.last(), rate), total)
    }
}

/// A share is nothing only where the value is nothing, and a part of the
/// total is at most one hundred percent.
pub proof fn lemma_portion(value: int, total: int)
    requires
        0 <= value,
        0 < total,
    ensures
        portion(value, total) == 0 <==> value == 0,
        portion(value, total) >= 0,
        value <= total ==> portion(value, total) <= hundred_percent(),
        portion(value, total) * total <= value * hundred_percent() + total,
        value * hundred_percent() <= (portion(value, total) + 1) * total - 1,
{
    let x = value * hundred_percent();
    let a = x / total;
    lemma_fundamental_div_mod(x, total);
    assert(x == total * a + x % total);
    assert(0 <= x % total < total);
    assert(x >= 0) by (nonlinear_arith)
        requires
            x == value * hundred_percent(),
            value >= 0,
            hundred_percent() == 1_000_000,
    ;
    assert(a >= 0) by (nonlinear_arith)
        requires
            x == total * a + x % total,
            x >= 0,
            x % total < total,
            total > 0,
    ;
    assert(a * total == total * a) by (nonlinear_arith);
    assert((a + 1) * total == total * a + total) by (nonlinear_arith);
    assert((1 + 1) * total == total + total) by (nonlinear_arith);
    if value <= total {
        assert(a <= hundred_percent()) by (nonlinear_arith)
            requires
                total * a <= value * hundred_percent(),
                value <= total,
                total > 0,
                hundred_percent() > 0,
        ;
    }
}

/// Shares of any positive amount: together they differ from the exact share
/// of the holdings' total by less than one unit per holding.
pub proof fn lemma_allocations_bracket(hs: Seq<Holding>, rate: int, total: int)
    requires
        total > 0,
        forall|i: int| 0 <= i < hs.len() ==> value_of(#[trigger] hs[i], rate) >= 0,
    ensures
        (sum_of_allocations(hs, rate, total) - hs.len()) * total <= hundred_percent()
            * total_value(hs, rate),
        hundred_percent() * total_value(hs, rate) <= (sum_of_allocations(hs, rate, total)
            + hs.len()) * total - hs.len(),
    decreases hs.len(),
{
    if hs.len() > 0 {
        let rest = hs.drop_last();
        assert forall|i: int| 0 <= i < rest.len() implies value_of(#[trigger] rest[i], rate)
            >= 0 by {
            assert(rest[i] == hs[i]);
        }
        lemma_allocations_bracket(rest, rate, total);
        assert(hs[hs.len() - 1] == hs.last());
        let v = value_of(hs.last(), rate);
        let x = v * hundred_percent();
        let a = portion(v, total);
        let s = sum_of_allocations(rest, rate, total);
        let t = total_value(rest, rate);
        let n = rest.len() as int;
        lemma_portion(v, total);
        assert(hundred_percent() * (t + v) == hundred_percent() * t + x) by (nonlinear_arith)
            requires
                x == v * hundred_percent(),
        ;
        assert((s + a - (n + 1)) * total == (s - n) * total + (a * total - total))
            by (nonlinear_arith);
        assert((s + a + (n + 1)) * total - (n + 1) == ((s + n) * total - n) + ((a + 1) * total
            - 1)) by (nonlinear_arith);
    } else {
        assert((0 - 0) * total == 0 && (0 + 0) * total - 0 == 0 && hundred_percent() * 0 == 0)
            by (nonlinear_arith);
    }
}

/// The shares of the allocation report add up to one hundred percent, give
/// or take less than one unit per holding, where the portfolio is worth
/// something; and a holding has no share only where it has no value.
pub proof fn lemma_allocations_sum_to_whole(hs: Seq<Holding>, rate: int)
    requires
        forall|i: int| 0 <= i < hs.len() ==> value_of(#[trigger] hs[i], rate) >= 0,
        total_value(hs, rate) > 0,
    ensures
        hundred_percent() - hs.len() < sum_of_allocations(hs, rate, total_value(hs, rate))
            <= hundred_percent() + hs.len(),
        forall|i: int|
            0 <= i < hs.len() ==> (allocation_of(#[trigger] hs[i], rate, total_value(hs, rate))
                == Some(0int) <==> value_of(hs[i], rate) == 0),
{
    let total = total_value(hs, rate);
    let s = sum_of_allocations(hs, rate, total);
    let n = hs.len() as int;
    let w = hundred_percent();
    lemma_allocations_bracket(hs, rate, total);
    assert(n > 0);
    assert(s - n <= w) by (nonlinear_arith)
        requires
            (s - n) * total <= w * total,
            total > 0,
    ;
    assert(w < s + n) by (nonlinear_arith)
        requires
            w * total <= (s + n) * total - n,
            n > 0,
            total > 0,
    ;
    assert forall|i: int| 0 <= i < hs.len() implies (allocation_of(
        #[trigger] hs[i],
        rate,
        total,
    ) == Some(0int) <==> value_of(hs[i], rate) == 0) by {
        lemma_portion(value_of(hs[i], rate), total);
    }
}

} // verus!
