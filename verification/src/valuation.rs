//! Value of a holding and of a portfolio in the native currency.

use vstd::prelude::*;
use crate::model::{all_within_limits, holdings, Holding, Stock};
use crate::units::{scale, MAX_HOLDINGS, MAX_QUOTE, MAX_RATE, MAX_SHARES, SCALE};

verus! {

/// Value of a holding: quote times shares, converted at `rate` if the holding
/// is foreign.
pub open spec fn value_of(h: Holding, rate: int) -> int {
    if h.foreign {
        h.quote * h.shares * rate
    } else {
        h.quote * h.shares * scale()
    }
}

/// Sum of the values of the holdings.
pub open spec fn total_value(hs: Seq<Holding>, rate: int) -> int
    decreases hs.len(),
{
    if hs.len() == 0 {
        0
    } else {
        total_value(hs.drop_last(), rate) + value_of(hs.last(), rate)
    }
}

/// Largest value of one holding within limits.
pub open spec fn max_value() -> int {
    MAX_QUOTE * MAX_SHARES * MAX_RATE
}

/// A holding within limits is worth between nothing and `max_value()`.
pub proof fn lemma_value_bounds(h: Holding, rate: int)
    requires
        h.within_limits(),
        0 <= rate <= MAX_RATE,
    ensures
        0 <= value_of(h, rate) <= max_value(),
        0 <= h.quote * h.shares <= MAX_QUOTE * MAX_SHARES,
{
    let q = h.quote;
    let n = h.shares;
    assert(0 <= q * n <= MAX_QUOTE * MAX_SHARES) by (nonlinear_arith)
        requires
            0 <= q <= MAX_QUOTE,
            0 <= n <= MAX_SHARES,
    ;
    let qn = q * n;
    let m = MAX_QUOTE * MAX_SHARES;
    assert(0 <= qn * rate <= m * MAX_RATE) by (nonlinear_arith)
        requires
            0 <= qn <= m,
            0 <= rate <= MAX_RATE,
    ;
    assert(0 <= qn * scale() <= m * MAX_RATE) by (nonlinear_arith)
        requires
            0 <= qn <= m,
            scale() == 10_000,
            MAX_RATE == 10_000_000,
    ;
}

/// A portfolio within limits is worth at most `max_value()` per holding.
pub proof fn lemma_total_bounds(hs: Seq<Holding>, rate: int)
    requires
        forall|i: int| 0 <= i < hs.len() ==> (#[trigger] hs[i]).within_limits(),
        0 <= rate <= MAX_RATE,
    ensures
        0 <= total_value(hs, rate) <= hs.len() * max_value(),
    decreases hs.len(),
{
    if hs.len() > 0 {
        lemma_total_bounds(hs.drop_last(), rate);
        lemma_value_bounds(hs.last(), rate);
        assert(hs.len() * max_value() == (hs.len() - 1) * max_value() + max_value())
            by (nonlinear_arith);
    }
}

/// Value of one position in the native currency, in hundred-millionths.
pub fn calc_value_of_stock(stock: &Stock, usd_to_cad_exchange_rate: u64) -> (value: u128)
    requires
        stock@.within_limits(),
        usd_to_cad_exchange_rate <= MAX_RATE,
    ensures
        value == value_of(stock@, usd_to_cad_exchange_rate as int),
{
    proof {
        lemma_value_bounds(stock@, usd_to_cad_exchange_rate as int);
    }
    let held: u128 = (stock.quote as u128) * (stock.number_of_shares as u128);
    if stock.is_usd {
        held * (usd_to_cad_exchange_rate as u128)
    } else {
        held * (SCALE as u128)
    }
}

/// Value of all positions in the native currency, in hundred-millionths.
pub fn calc_portfolio_val(stocks: &Vec<Stock>, usd_to_cad_exchange_rate: u64) -> (total: u128)
    requires
        all_within_limits(holdings(stocks@)),
        usd_to_cad_exchange_rate <= MAX_RATE,
    ensures
        total == total_value(holdings(stocks@), usd_to_cad_exchange_rate as int),
        total <= MAX_HOLDINGS * max_value(),
{
    let ghost hs = holdings(stocks@);
    let ghost rate = usd_to_cad_exchange_rate as int;
    let mut total: u128 = 0;
    let mut i: usize = 0;
    while i < stocks.len()
        invariant
            i <= stocks.len(),
            hs == holdings(stocks@),
            rate == usd_to_cad_exchange_rate as int,
            all_within_limits(hs),
            usd_to_cad_exchange_rate <= MAX_RATE,
            total == total_value(hs.take(i as int), rate),
        decreases stocks.len() - i,
    {
        assert(hs[i as int].within_limits() && hs[i as int] == stocks[i as int]@);
        let value = calc_value_of_stock(&stocks[i], usd_to_cad_exchange_rate);
        proof {
            let next = hs.take(i + 1);
            assert(next.drop_last() == hs.take(i as int));
            assert(next.last() == hs[i as int]);
            lemma_total_bounds(next, rate);
            assert(next.len() * max_value() <= MAX_HOLDINGS * max_value()) by (nonlinear_arith)
                requires
                    next.len() <= MAX_HOLDINGS,
            ;
        }
        total = total + value;
        i += 1;
    }
    proof {
        assert(hs.take(i as int) == hs);
        lemma_total_bounds(hs, rate);
        assert(hs.len() * max_value() <= MAX_HOLDINGS * max_value()) by (nonlinear_arith)
            requires
                hs.len() <= MAX_HOLDINGS,
        ;
    }
    total
}

/// The value of a holding is proportional to its share count: with `factor`
/// times the shares, at the same quote and rate, it is worth `factor` times
/// as much. With `factor == 2`: twice the shares are worth twice as much.
pub proof fn lemma_value_scales_with_shares(h: Holding, rate: int, factor: int)
    ensures
        value_of(h.with_shares(factor * h.shares), rate) == factor * value_of(h, rate),
        value_of(h.with_shares(2 * h.shares), rate) == 2 * value_of(h, rate),
{
    let q = h.quote;
    let n = h.shares;
    let r = if h.foreign { rate } else { scale() };
    assert(q * (factor * n) * r == factor * (q * n * r)) by (nonlinear_arith);
    assert(q * (2 * n) * r == 2 * (q * n * r)) by (nonlinear_arith);
}

/// The total is the value of any one holding plus the total of the others.
pub proof fn lemma_total_without(hs: Seq<Holding>, rate: int, i: int)
    requires
        0 <= i < hs.len(),
    ensures
        total_value(hs, rate) == total_value(hs.remove(i), rate) + value_of(hs[i], rate),
    decreases hs.len(),
{
    if i == hs.len() - 1 {
        assert(hs.remove(i) == hs.drop_last());
    } else {
        lemma_total_without(hs.drop_last(), rate, i);
        assert(hs.remove(i).drop_last() == hs.drop_last().remove(i));
        assert(hs.remove(i).last() == hs.last());
    }
}

/// The total does not depend on the order of the holdings: two sequences
/// that hold the same holdings equally often have the same total.
pub proof fn lemma_total_ignores_order(a: Seq<Holding>, b: Seq<Holding>, rate: int)
    requires
        a.to_multiset() == b.to_multiset(),
    ensures
        total_value(a, rate) == total_value(b, rate),
    decreases a.len(),
{
    vstd::seq_lib::to_multiset_len(a);
    vstd::seq_lib::to_multiset_len(b);
    if a.len() == 0 {
        assert(b.len() == 0);
    } else {
        let x = a.last();
        let i = a.len() - 1;
        assert(a[i] == x);
        assert(a.contains(x));
        vstd::seq_lib::to_multiset_contains(a, x);
        vstd::seq_lib::to_multiset_contains(b, x);
        let j = choose|j: int| 0 <= j < b.len() && b[j] == x;
        vstd::seq_lib::to_multiset_remove(a, i);
        vstd::seq_lib::to_multiset_remove(b, j);
        assert(a.remove(i) == a.drop_last());
        lemma_total_ignores_order(a.drop_last(), b.remove(j), rate);
        lemma_total_without(b, rate, j);
    }
}

} // verus!
