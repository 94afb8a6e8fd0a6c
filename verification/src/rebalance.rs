//! Purchases that move a portfolio toward its target allocations.
//!
//! All amounts in this module are plan amounts: a budget of `c` input units is
//! `c * plan_scale()`, one share of a holding quoted at `q` costs
//! `q * plan_scale()`, and a holding whose target is `t` in a portfolio worth
//! `v` should be worth `t * v`.
//!
//! A holding may be quoted at nothing. No number of its shares has a price
//! then: the cost of buying it is undefined (`None`), and so is a budget once
//! such a purchase has been paid from it.

use vstd::prelude::*;
use crate::model::{all_within_limits, holdings, Data, Holding, Snapshot, Stock};
use crate::units::{
    plan_scale, MAX_HOLDINGS, MAX_PERCENT, MAX_QUOTE, MAX_RATE, MAX_SHARES, PLAN_SCALE,
};
use crate::valuation::{calc_portfolio_val, max_value, total_value};

verus! {

/// A recommended purchase.
pub struct CalculationResult {
    /// Identifier of the asset to buy.
    pub symbol: String,
    /// Whole shares to buy, at most `LARGEST_COUNT`, which also stands for
    /// shares without number.
    pub new_number_of_shares: i64,
    /// What the purchase costs, as a plan amount; `None` where that is
    /// undefined.
    pub cost: Option<u128>,
}

/// Mathematical view of a [`CalculationResult`].
pub struct Purchase {
    pub symbol: Seq<char>,
    pub shares: int,
    pub cost: Option<int>,
}

/// The view of an amount that may be undefined.
pub open spec fn amount_view(amount: Option<u128>) -> Option<int> {
    match amount {
        Some(a) => Some(a as int),
        None => None,
    }
}

impl View for CalculationResult {
    type V = Purchase;

    open spec fn view(&self) -> Purchase {
        Purchase {
            symbol: self.symbol@,
            shares: self.new_number_of_shares as int,
            cost: amount_view(self.cost),
        }
    }
}

/// The views of a sequence of recommendations, in order.
pub open spec fn purchases(results: Seq<CalculationResult>) -> Seq<Purchase> {
    Seq::new(results.len(), |i: int| results[i]@)
}

/// The view of an optional recommendation.
pub open spec fn optional_purchase(result: Option<CalculationResult>) -> Option<Purchase> {
    match result {
        Some(r) => Some(r@),
        None => None,
    }
}

/// The budget that a contribution of `contribution` input units gives.
pub open spec fn budget_of(contribution: int) -> int {
    contribution * plan_scale()
}

/// Price of one share.
pub open spec fn share_price(h: Holding) -> int {
    h.quote * plan_scale()
}

/// What the holding lacks to its target in a portfolio worth `total`;
/// negative where it is above target.
pub open spec fn target_gap(h: Holding, total: int) -> int {
    h.target * total - h.shares * share_price(h)
}

/// The largest share count that a recommendation states.
pub const LARGEST_COUNT: i64 = 9_223_372_036_854_775_807;

/// The whole shares that `amount` pays at `price`, rounded down and capped at
/// `LARGEST_COUNT`. At a price of nothing an amount above nothing pays shares
/// without number, for which the largest count stands, and no amount pays
/// none.
pub open spec fn whole_shares(amount: int, price: int) -> int {
    if price > 0 {
        if amount / price > LARGEST_COUNT {
            LARGEST_COUNT as int
        } else {
            amount / price
        }
    } else if amount > 0 {
        LARGEST_COUNT as int
    } else {
        0
    }
}

/// What shares for `amount` cost at `price`: the amount, but at a price of
/// nothing the cost is undefined.
pub open spec fn cost_at(amount: int, price: int) -> Option<int> {
    if price > 0 {
        Some(amount)
    } else {
        None
    }
}

/// The purchase that spends the whole of `budget` on the holding: as many
/// whole shares as the budget pays, at the cost of the budget. An undefined
/// budget pays no share, at an undefined cost.
pub open spec fn affordable(h: Holding, budget: Option<int>) -> Purchase {
    match budget {
        Some(b) => Purchase {
            symbol: h.symbol,
            shares: whole_shares(b, share_price(h)),
            cost: cost_at(b, share_price(h)),
        },
        None => Purchase { symbol: h.symbol, shares: 0, cost: None },
    }
}

/// The purchase that closes the holding's gap to its target.
pub open spec fn closing(h: Holding, total: int) -> Purchase {
    Purchase {
        symbol: h.symbol,
        shares: whole_shares(target_gap(h, total), share_price(h)),
        cost: cost_at(target_gap(h, total), share_price(h)),
    }
}

/// The purchase proposed for one holding before any money is spent: none at
/// or above target; the closing purchase where its cost is defined and the
/// budget exceeds it; else the affordable one.
pub open spec fn candidate(h: Holding, total: int, budget: int) -> Option<Purchase> {
    if target_gap(h, total) <= 0 {
        None
    } else if share_price(h) > 0 && target_gap(h, total) < budget {
        Some(closing(h, total))
    } else {
        Some(affordable(h, Some(budget)))
    }
}

/// The candidates of all holdings, in the order of the holdings.
pub open spec fn candidates(hs: Seq<Holding>, total: int, budget: int) -> Seq<Purchase>
    decreases hs.len(),
{
    if hs.len() == 0 {
        Seq::empty()
    } else {
        let before = candidates(hs.drop_last(), total, budget);
        match candidate(hs.last(), total, budget) {
            Some(p) => before.push(p),
            None => before,
        }
    }
}

/// `a` costs more than `b`. An undefined cost counts as more than any
/// defined one, and not as more than another undefined one.
pub open spec fn dearer(a: Purchase, b: Purchase) -> bool {
    match (a.cost, b.cost) {
        (Some(x), Some(y)) => x > y,
        (None, Some(_)) => true,
        (_, None) => false,
    }
}

/// `p` placed behind the last purchase of `s` that is not dearer than it.
pub open spec fn insert_by_cost(s: Seq<Purchase>, p: Purchase) -> Seq<Purchase>
    decreases s.len(),
{
    if s.len() == 0 || !dearer(s.last(), p) {
        s.push(p)
    } else {
        insert_by_cost(s.drop_last(), p).push(s.last())
    }
}

/// The purchases in ascending order of cost, those of undefined cost last;
/// equal costs keep their order.
pub open spec fn sorted_by_cost(s: Seq<Purchase>) -> Seq<Purchase>
    decreases s.len(),
{
    if s.len() == 0 {
        s
    } else {
        insert_by_cost(sorted_by_cost(s.drop_last()), s.last())
    }
}

/// What the first pass has bought and what is left of the budget.
pub struct Outcome {
    pub bought: Seq<Purchase>,
    pub remaining: int,
}

/// `p` has a cost, and it is no more than `remaining`.
pub open spec fn fits(p: Purchase, remaining: int) -> bool {
    p.cost matches Some(c) && c <= remaining
}

/// Takes the purchases in order: one that costs no more than what remains is
/// bought and paid; any other, one of undefined cost too, is dropped.
pub open spec fn buy_in_order(ps: Seq<Purchase>, budget: int) -> Outcome
    decreases ps.len(),
{
    if ps.len() == 0 {
        Outcome { bought: Seq::empty(), remaining: budget }
    } else {
        let before = buy_in_order(ps.drop_last(), budget);
        let p = ps.last();
        if fits(p, before.remaining) {
            Outcome { bought: before.bought.push(p), remaining: before.remaining - p.cost->0 }
        } else {
            before
        }
    }
}

/// What the second pass has bought and what is left of the budget, which is
/// undefined once a purchase of undefined cost has been paid.
pub struct Leftover {
    pub bought: Seq<Purchase>,
    pub remaining: Option<int>,
}

/// What remains of `remaining` once `p` is paid.
pub open spec fn after_paying(remaining: Option<int>, p: Purchase) -> Option<int> {
    match (remaining, p.cost) {
        (Some(r), Some(c)) => Some(r - c),
        _ => None,
    }
}

/// Takes the holdings in order: unless what remains is nothing, the
/// affordable purchase for what remains is bought and paid. An undefined
/// remainder is not nothing.
pub open spec fn spend_leftover(hs: Seq<Holding>, budget: Option<int>) -> Leftover
    decreases hs.len(),
{
    if hs.len() == 0 {
        Leftover { bought: Seq::empty(), remaining: budget }
    } else {
        let before = spend_leftover(hs.drop_last(), budget);
        if before.remaining matches Some(r) && r <= 0 {
            before
        } else {
            let p = affordable(hs.last(), before.remaining);
            Leftover {
                bought: before.bought.push(p),
                remaining: after_paying(before.remaining, p),
            }
        }
    }
}

/// Both passes of a plan.
pub struct Plan {
    /// Purchases that close gaps to the targets, cheapest first.
    pub fix_allocations: Seq<Purchase>,
    /// Purchases from the money that the first pass left.
    pub extra_cash: Seq<Purchase>,
    /// Money left after both passes; `None` where that is undefined.
    pub remaining: Option<int>,
}

/// The plan for holdings worth `total` and a budget: the candidates proposed
/// against the full budget are sorted by cost and bought in that order, then
/// what is left is spent on the holdings in their own order.
///
/// Every candidate is sized against the whole budget, so one may no longer
/// fit once cheaper ones have been paid: it is then dropped, not made
/// smaller. The second pass does not look at what the first has bought, so a
/// holding may be bought in both. Targets are taken as they are given: they
/// need not add up to one hundred percent.
pub open spec fn plan_with(hs: Seq<Holding>, total: int, budget: int) -> Plan {
    let first = buy_in_order(sorted_by_cost(candidates(hs, total, budget)), budget);
    let second = spend_leftover(hs, Some(first.remaining));
    Plan {
        fix_allocations: first.bought,
        extra_cash: second.bought,
        remaining: second.remaining,
    }
}

/// The plan for a snapshot. The total that the targets refer to is the value
/// of the holdings alone, without the contribution.
pub open spec fn plan_for(s: Snapshot) -> Plan {
    plan_with(
        s.holdings,
        total_value(s.holdings, s.exchange_rate),
        budget_of(s.contribution),
    )
}

/// Both passes of a plan, as computed.
pub struct ContributionPlan {
    /// Purchases that close gaps to the targets, cheapest first.
    pub fix_allocations: Vec<CalculationResult>,
    /// Purchases from the money that the first pass left.
    pub extra_cash: Vec<CalculationResult>,
    /// Money left after both passes, as a plan amount; `None` where that is
    /// undefined.
    pub remaining: Option<u128>,
}

impl View for ContributionPlan {
    type V = Plan;

    open spec fn view(&self) -> Plan {
        Plan {
            fix_allocations: purchases(self.fix_allocations@),
            extra_cash: purchases(self.extra_cash@),
            remaining: amount_view(self.remaining),
        }
    }
}

/// The views of a sequence with one more element.
pub proof fn lemma_purchases_push(results: Seq<CalculationResult>, r: CalculationResult)
    ensures
        purchases(results.push(r)) == purchases(results).push(r@),
{
    assert(purchases(results.push(r)) =~= purchases(results).push(r@));
}

/// The views of a sequence with one element put in.
pub proof fn lemma_purchases_insert(results: Seq<CalculationResult>, k: int, r: CalculationResult)
    requires
        0 <= k <= results.len(),
    ensures
        purchases(results.insert(k, r)) == purchases(results).insert(k, r@),
{
    assert(purchases(results.insert(k, r)) =~= purchases(results).insert(k, r@));
}

/// Insertion by cost puts the purchase in at one place `k` and moves nothing
/// else: the purchase in front of `k` is not dearer than it, from `k` on
/// every purchase is.
pub proof fn lemma_insert_place(s: Seq<Purchase>, p: Purchase) -> (k: int)
    ensures
        0 <= k <= s.len(),
        insert_by_cost(s, p) == s.insert(k, p),
        k == 0 || !dearer(s[k - 1], p),
        forall|j: int| k <= j < s.len() ==> dearer(#[trigger] s[j], p),
    decreases s.len(),
{
    if s.len() == 0 || !dearer(s.last(), p) {
        assert(s.insert(s.len() as int, p) =~= s.push(p));
        s.len() as int
    } else {
        let k = lemma_insert_place(s.drop_last(), p);
        assert(s.drop_last().insert(k, p).push(s.last()) =~= s.insert(k, p));
        assert forall|j: int| k <= j < s.len() implies dearer(#[trigger] s[j], p) by {
            if j < s.len() - 1 {
                assert(dearer(s.drop_last()[j], p));
            }
        }
        k
    }
}

/// The one-share price of a position, as a plan amount.
fn share_price_of(stock: &Stock) -> (price: u128)
    ensures
        price == share_price(stock@),
{
    let quote: u128 = stock.quote as u128;
    assert(quote * PLAN_SCALE <= u64::MAX * PLAN_SCALE) by (nonlinear_arith)
        requires
            quote <= u64::MAX,
    ;
    quote * PLAN_SCALE
}

/// The whole shares that `amount` pays at `price`.
fn whole_shares_for(amount: u128, price: u128) -> (shares: i64)
    ensures
        shares == whole_shares(amount as int, price as int),
{
    if price > 0 {
        let paid: u128 = amount / price;
        if paid > LARGEST_COUNT as u128 {
            LARGEST_COUNT
        } else {
            paid as i64
        }
    } else if amount > 0 {
        LARGEST_COUNT
    } else {
        0
    }
}

/// The purchase that spends all of `current_contribution_amount`, a plan
/// amount that may be undefined, on one position.
pub fn determine_result_based_on_contrib_amount(
    stock: &Stock,
    current_contribution_amount: Option<u128>,
) -> (result: CalculationResult)
    ensures
        result@ == affordable(stock@, amount_view(current_contribution_amount)),
{
    let price = share_price_of(stock);
    match current_contribution_amount {
        Some(amount) => CalculationResult {
            symbol: stock.symbol.clone(),
            new_number_of_shares: whole_shares_for(amount, price),
            cost: if price > 0 {
                Some(amount)
            } else {
                None
            },
        },
        None => CalculationResult { symbol: stock.symbol.clone(), new_number_of_shares: 0, cost: None },
    }
}

/// The purchase proposed for one position in a portfolio worth `total_value`
/// while `current_contribution_amount`, a plan amount, is available.
pub fn calc_number_of_shares_to_buy(
    stock: &Stock,
    total_value: u128,
    current_contribution_amount: u128,
) -> (result: Option<CalculationResult>)
    requires
        stock@.within_limits(),
        total_value <= MAX_HOLDINGS * max_value(),
    ensures
        optional_purchase(result) == candidate(
            stock@,
            total_value as int,
            current_contribution_amount as int,
        ),
{
    let price = share_price_of(stock);
    let target: u128 = stock.target_allocation as u128;
    let shares: u128 = stock.number_of_shares as u128;
    proof {
        let h = stock@;
        assert(0 <= price <= MAX_QUOTE * PLAN_SCALE) by (nonlinear_arith)
            requires
                price == h.quote * PLAN_SCALE,
                0 <= h.quote <= MAX_QUOTE,
        ;
        assert(target * total_value <= MAX_PERCENT * (MAX_HOLDINGS * max_value()))
            by (nonlinear_arith)
            requires
                target <= MAX_PERCENT,
                total_value <= MAX_HOLDINGS * max_value(),
        ;
        assert(shares * price <= MAX_SHARES * (MAX_QUOTE * PLAN_SCALE)) by (nonlinear_arith)
            requires
                shares <= MAX_SHARES,
                price <= MAX_QUOTE * PLAN_SCALE,
        ;
    }
    let wanted: u128 = target * total_value;
    let held: u128 = shares * price;
    if wanted <= held {
        None
    } else {
        let gap: u128 = wanted - held;
        if price > 0 && gap < current_contribution_amount {
            Some(
                CalculationResult {
                    symbol: stock.symbol.clone(),
                    new_number_of_shares: whole_shares_for(gap, price),
                    cost: Some(gap),
                },
            )
        } else {
            Some(determine_result_based_on_contrib_amount(stock, Some(current_contribution_amount)))
        }
    }
}

/// Tells whether `a` costs more than `b`, an undefined cost counting as more
/// than any defined one.
fn is_dearer(a: &CalculationResult, b: &CalculationResult) -> (yes: bool)
    ensures
        yes == dearer(a@, b@),
{
    match (a.cost, b.cost) {
        (Some(x), Some(y)) => x > y,
        (None, Some(_)) => true,
        (_, None) => false,
    }
}

/// Sorts the recommendations by ascending cost, those of undefined cost last;
/// equal costs keep their order.
pub fn sort_by_cost(results: Vec<CalculationResult>) -> (sorted: Vec<CalculationResult>)
    ensures
        purchases(sorted@) == sorted_by_cost(purchases(results@)),
{
    let ghost given = results@;
    let mut sorted: Vec<CalculationResult> = Vec::new();
    for r in it: results
        invariant
            it.seq() == given,
            purchases(sorted@) == sorted_by_cost(purchases(given.take(it.index() as int))),
    {
        let mut k: usize = sorted.len();
        while k > 0 && is_dearer(&sorted[k - 1], &r)
            invariant
                k <= sorted.len(),
                forall|j: int| k <= j < sorted.len() ==> dearer((#[trigger] sorted[j])@, r@),
            decreases k,
        {
            k -= 1;
        }
        proof {
            let done = given.take(it.index() as int);
            let next = given.take(it.index() + 1);
            assert(next == done.push(r));
            lemma_purchases_push(done, r);
            assert(purchases(next).drop_last() == purchases(done));
            let s = purchases(sorted@);
            let place = lemma_insert_place(s, r@);
            if place < k {
                assert(dearer(s[k - 1], r@));
            }
            if k < place {
                assert(dearer(sorted[place - 1]@, r@));
            }
            lemma_purchases_insert(sorted@, k as int, r);
        }
        sorted.insert(k, r);
    }
    assert(given.take(given.len() as int) == given);
    sorted
}

/// Buys the recommendations in order from `budget`, a plan amount: one that
/// costs no more than what remains is kept and paid; any other, one of
/// undefined cost too, is dropped.
pub fn buy_affordable(results: Vec<CalculationResult>, budget: u128) -> (outcome: (
    Vec<CalculationResult>,
    u128,
))
    ensures
        purchases(outcome.0@) == buy_in_order(purchases(results@), budget as int).bought,
        outcome.1 == buy_in_order(purchases(results@), budget as int).remaining,
{
    let ghost given = results@;
    let mut bought: Vec<CalculationResult> = Vec::new();
    let mut remaining: u128 = budget;
    for r in it: results
        invariant
            it.seq() == given,
            purchases(bought@) == buy_in_order(
                purchases(given.take(it.index() as int)),
                budget as int,
            ).bought,
            remaining == buy_in_order(
                purchases(given.take(it.index() as int)),
                budget as int,
            ).remaining,
    {
        proof {
            let done = given.take(it.index() as int);
            let next = given.take(it.index() + 1);
            assert(next == done.push(r));
            lemma_purchases_push(done, r);
            assert(purchases(next).drop_last() == purchases(done));
            lemma_purchases_push(bought@, r);
        }
        match r.cost {
            Some(cost) => {
                if cost <= remaining {
                    remaining = remaining - cost;
                    bought.push(r);
                }
            },
            None => {},
        }
    }
    assert(given.take(given.len() as int) == given);
    (bought, remaining)
}

/// Proposes a purchase for every position that is below its target in a
/// portfolio worth `total_value`, each against the whole of `budget`.
pub fn propose_purchases(stocks: &Vec<Stock>, total_value: u128, budget: u128) -> (results: Vec<
    CalculationResult,
>)
    requires
        all_within_limits(holdings(stocks@)),
        total_value <= MAX_HOLDINGS * max_value(),
    ensures
        purchases(results@) == candidates(holdings(stocks@), total_value as int, budget as int),
{
    let ghost hs = holdings(stocks@);
    let mut results: Vec<CalculationResult> = Vec::new();
    let mut i: usize = 0;
    while i < stocks.len()
        invariant
            i <= stocks.len(),
            hs == holdings(stocks@),
            all_within_limits(hs),
            total_value <= MAX_HOLDINGS * max_value(),
            purchases(results@) == candidates(hs.take(i as int), total_value as int, budget as int),
        decreases stocks.len() - i,
    {
        assert(hs[i as int].within_limits() && hs[i as int] == stocks[i as int]@);
        let proposed = calc_number_of_shares_to_buy(&stocks[i], total_value, budget);
        proof {
            let next = hs.take(i + 1);
            assert(next.drop_last() == hs.take(i as int));
            assert(next.last() == hs[i as int]);
        }
        match proposed {
            Some(r) => {
                proof {
                    lemma_purchases_push(results@, r);
                }
                results.push(r);
            },
            None => {},
        }
        i += 1;
    }
    assert(hs.take(i as int) == hs);
    results
}

/// Spends what is left of `budget`, a plan amount, on the positions in their
/// own order: unless nothing remains, the whole remainder goes to the next
/// position.
pub fn spend_leftover_cash(stocks: &Vec<Stock>, budget: u128) -> (outcome: (
    Vec<CalculationResult>,
    Option<u128>,
))
    ensures
        purchases(outcome.0@) == spend_leftover(holdings(stocks@), Some(budget as int)).bought,
        amount_view(outcome.1) == spend_leftover(
            holdings(stocks@),
            Some(budget as int),
        ).remaining,
{
    let ghost hs = holdings(stocks@);
    let ghost start = Some(budget as int);
    let mut bought: Vec<CalculationResult> = Vec::new();
    let mut remaining: Option<u128> = Some(budget);
    let mut i: usize = 0;
    while i < stocks.len()
        invariant
            i <= stocks.len(),
            hs == holdings(stocks@),
            start == Some(budget as int),
            purchases(bought@) == spend_leftover(hs.take(i as int), start).bought,
            amount_view(remaining) == spend_leftover(hs.take(i as int), start).remaining,
        decreases stocks.len() - i,
    {
        proof {
            let next = hs.take(i + 1);
            assert(next.drop_last() == hs.take(i as int));
            assert(next.last() == hs[i as int]);
            assert(hs[i as int] == stocks[i as int]@);
        }
        let spent_out = match remaining {
            Some(r) => r == 0,
            None => false,
        };
        if !spent_out {
            let r = determine_result_based_on_contrib_amount(&stocks[i], remaining);
            proof {
                lemma_purchases_push(bought@, r);
            }
            remaining = match (remaining, r.cost) {
                (Some(left), Some(cost)) => Some(left - cost),
                _ => None,
            };
            bought.push(r);
        }
        i += 1;
    }
    assert(hs.take(i as int) == hs);
    (bought, remaining)
}

/// The budget, as a plan amount, that a contribution in input units gives.
pub fn budget_from_contribution(expected_contribution: u64) -> (budget: u128)
    ensures
        budget == budget_of(expected_contribution as int),
{
    let cash: u128 = expected_contribution as u128;
    assert(cash * PLAN_SCALE <= u64::MAX * PLAN_SCALE) by (nonlinear_arith)
        requires
            cash <= u64::MAX,
    ;
    cash * PLAN_SCALE
}

/// Decides where the contribution goes: first the purchases that close gaps
/// to the targets, cheapest first, as far as the money reaches; then what is
/// left of it, on the positions in their own order.
pub fn where_to_contribute(data: &Data) -> (plan: ContributionPlan)
    requires
        all_within_limits(data@.holdings),
        data@.exchange_rate <= MAX_RATE,
    ensures
        plan@ == plan_for(data@),
{
    let budget = budget_from_contribution(data.expected_contribution);
    let total_value = calc_portfolio_val(&data.stocks, data.usd_to_cad_exchange_rate);
    let results = propose_purchases(&data.stocks, total_value, budget);
    let sorted = sort_by_cost(results);
    let (fix_allocations, after_first) = buy_affordable(sorted, budget);
    let (extra_cash, remaining) = spend_leftover_cash(&data.stocks, after_first);
    ContributionPlan { fix_allocations, extra_cash, remaining }
}

} // verus!
