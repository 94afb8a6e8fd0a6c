//! What holds of every plan.

use vstd::prelude::*;
use crate::model::Holding;
use crate::rebalance::{
    affordable, buy_in_order, candidate, candidates, closing, dearer, insert_by_cost,
    lemma_insert_place, plan_with, share_price, sorted_by_cost, spend_leftover, target_gap,
    Purchase,
};

verus! {

/// No purchase is dearer than one behind it.
pub open spec fn ascending(s: Seq<Purchase>) -> bool {
    forall|i: int, j: int| 0 <= i <= j < s.len() ==> !dearer(s[i], s[j])
}

/// Sum of the costs that are defined.
pub open spec fn total_cost(s: Seq<Purchase>) -> int
    decreases s.len(),
{
    if s.len() == 0 {
        0
    } else {
        total_cost(s.drop_last()) + match s.last().cost {
            Some(c) => c,
            None => 0,
        }
    }
}

/// Insertion by cost adds the purchase and keeps all others.
pub proof fn lemma_insert_keeps_content(s: Seq<Purchase>, p: Purchase)
    ensures
        insert_by_cost(s, p).to_multiset() == s.to_multiset().insert(p),
{
    let k = lemma_insert_place(s, p);
    vstd::seq_lib::to_multiset_insert(s, k, p);
}

/// Insertion by cost into an ascending sequence gives an ascending sequence.
pub proof fn lemma_insert_keeps_ascending(s: Seq<Purchase>, p: Purchase)
    requires
        ascending(s),
    ensures
        ascending(insert_by_cost(s, p)),
{
    let k = lemma_insert_place(s, p);
    let t = s.insert(k, p);
    assert forall|i: int, j: int| 0 <= i <= j < t.len() implies !dearer(t[i], t[j]) by {
        if i < k {
            assert(!dearer(s[i], s[k - 1]));
        }
        if j > k {
            assert(dearer(s[j - 1], p));
        }
        if i < k && j > k {
            assert(!dearer(s[i], s[j - 1]));
        }
        if i > k {
            assert(!dearer(s[i - 1], s[j - 1]));
        }
    }
}

/// Sorting by cost gives an ascending sequence.
pub proof fn lemma_sorted_is_ascending(s: Seq<Purchase>)
    ensures
        ascending(sorted_by_cost(s)),
    decreases s.len(),
{
    if s.len() > 0 {
        lemma_sorted_is_ascending(s.drop_last());
        lemma_insert_keeps_ascending(sorted_by_cost(s.drop_last()), s.last());
    }
}

/// Sorting by cost keeps every purchase, as often as it was there.
pub proof fn lemma_sorted_keeps_content(s: Seq<Purchase>)
    ensures
        sorted_by_cost(s).to_multiset() == s.to_multiset(),
        sorted_by_cost(s).len() == s.len(),
    decreases s.len(),
{
    if s.len() > 0 {
        lemma_sorted_keeps_content(s.drop_last());
        lemma_insert_keeps_content(sorted_by_cost(s.drop_last()), s.last());
        assert(s.drop_last().push(s.last()) == s);
        vstd::seq_lib::to_multiset_build(s.drop_last(), s.last());
    }
    vstd::seq_lib::to_multiset_len(s);
    vstd::seq_lib::to_multiset_len(sorted_by_cost(s));
}

/// Whether a purchase costs `cost`.
pub open spec fn costing(cost: Option<int>) -> spec_fn(Purchase) -> bool {
    |p: Purchase| p.cost == cost
}

/// Insertion by cost puts the purchase behind those of the same cost.
pub proof fn lemma_insert_behind_equals(s: Seq<Purchase>, p: Purchase, cost: Option<int>)
    ensures
        insert_by_cost(s, p).filter(costing(cost)) == if p.cost == cost {
            s.filter(costing(cost)).push(p)
        } else {
            s.filter(costing(cost))
        },
    decreases s.len(),
{
    reveal(Seq::filter);
    if s.len() == 0 || !dearer(s.last(), p) {
        assert(s.push(p).drop_last() == s);
    } else {
        let inner = insert_by_cost(s.drop_last(), p);
        lemma_insert_behind_equals(s.drop_last(), p, cost);
        assert(inner.push(s.last()).drop_last() == inner);
    }
}

/// The sort is stable: the purchases of any one cost leave it in the order
/// in which they came.
pub proof fn lemma_sorted_is_stable(s: Seq<Purchase>, cost: Option<int>)
    ensures
        sorted_by_cost(s).filter(costing(cost)) == s.filter(costing(cost)),
    decreases s.len(),
{
    reveal(Seq::filter);
    if s.len() > 0 {
        lemma_sorted_is_stable(s.drop_last(), cost);
        lemma_insert_behind_equals(sorted_by_cost(s.drop_last()), s.last(), cost);
    }
}

/// What is bought was offered and has a cost, nothing is bought for more
/// than remains, and what is bought and what remains add up to the budget.
pub proof fn lemma_bought(ps: Seq<Purchase>, budget: int)
    ensures
        forall|i: int|
            0 <= i < buy_in_order(ps, budget).bought.len() ==> ps.contains(
                #[trigger] buy_in_order(ps, budget).bought[i],
            ),
        forall|i: int|
            0 <= i < buy_in_order(ps, budget).bought.len() ==> (#[trigger] buy_in_order(
                ps,
                budget,
            ).bought[i]).cost is Some,
        total_cost(buy_in_order(ps, budget).bought) + buy_in_order(ps, budget).remaining
            == budget,
        budget >= 0 ==> buy_in_order(ps, budget).remaining >= 0,
        ascending(ps) ==> ascending(buy_in_order(ps, budget).bought),
        buy_in_order(ps, budget).bought.len() <= ps.len(),
    decreases ps.len(),
{
    if ps.len() > 0 {
        let before = buy_in_order(ps.drop_last(), budget);
        let now = buy_in_order(ps, budget);
        let p = ps.last();
        lemma_bought(ps.drop_last(), budget);
        assert forall|i: int| 0 <= i < now.bought.len() implies ps.contains(
            #[trigger] now.bought[i],
        ) by {
            if i < before.bought.len() {
                let x = before.bought[i];
                assert(ps.drop_last().contains(x));
                let j = choose|j: int| 0 <= j < ps.drop_last().len() && ps.drop_last()[j] == x;
                assert(ps[j] == x);
            } else {
                assert(ps[ps.len() - 1] == p);
            }
        }
        assert forall|i: int| 0 <= i < now.bought.len() implies (#[trigger] now.bought[i]).cost
            is Some by {
            if i < before.bought.len() {
                assert(before.bought[i].cost is Some);
            }
        }
        if now.bought.len() > before.bought.len() {
            assert(now.bought.drop_last() == before.bought);
        }
        if ascending(ps) {
            assert(ascending(ps.drop_last()));
            assert forall|i: int, j: int| 0 <= i <= j < now.bought.len() implies !dearer(
                now.bought[i],
                now.bought[j],
            ) by {
                if j == before.bought.len() && i < j {
                    let x = before.bought[i];
                    assert(ps.drop_last().contains(x));
                    let m = choose|m: int| 0 <= m < ps.drop_last().len() && ps.drop_last()[m] == x;
                    assert(!dearer(ps[m], ps[ps.len() - 1]));
                } else if j < before.bought.len() {
                    assert(!dearer(before.bought[i], before.bought[j]));
                }
            }
        }
    }
}

/// `p` is what was proposed for some holding of `hs` that is below its
/// target in a portfolio worth `total`.
pub open spec fn proposed_below_target(hs: Seq<Holding>, total: int, budget: int, p: Purchase)
    -> bool {
    exists|j: int|
        0 <= j < hs.len() && target_gap(hs[j], total) > 0 && candidate(
            #[trigger] hs[j],
            total,
            budget,
        ) == Some(p)
}

/// Every candidate was proposed for a holding below its target.
pub proof fn lemma_candidates_below_target(hs: Seq<Holding>, total: int, budget: int)
    ensures
        forall|i: int|
            0 <= i < candidates(hs, total, budget).len() ==> proposed_below_target(
                hs,
                total,
                budget,
                #[trigger] candidates(hs, total, budget)[i],
            ),
        candidates(hs, total, budget).len() <= hs.len(),
    decreases hs.len(),
{
    if hs.len() > 0 {
        let before = candidates(hs.drop_last(), total, budget);
        let now = candidates(hs, total, budget);
        lemma_candidates_below_target(hs.drop_last(), total, budget);
        assert forall|i: int| 0 <= i < now.len() implies proposed_below_target(
            hs,
            total,
            budget,
            #[trigger] now[i],
        ) by {
            if i < before.len() {
                assert(proposed_below_target(hs.drop_last(), total, budget, before[i]));
                let j = choose|j: int|
                    0 <= j < hs.drop_last().len() && target_gap(hs.drop_last()[j], total) > 0
                        && candidate(#[trigger] hs.drop_last()[j], total, budget) == Some(
                        before[i],
                    );
                assert(hs[j] == hs.drop_last()[j]);
            } else {
                assert(hs[hs.len() - 1] == hs.last());
            }
        }
    }
}

/// The purchases of the first pass come in ascending order of cost.
pub proof fn lemma_first_pass_is_ascending(hs: Seq<Holding>, total: int, budget: int)
    ensures
        ascending(plan_with(hs, total, budget).fix_allocations),
        forall|i: int, j: int|
            0 <= i <= j < plan_with(hs, total, budget).fix_allocations.len() ==> plan_with(
                hs,
                total,
                budget,
            ).fix_allocations[i].cost->0 <= plan_with(hs, total, budget).fix_allocations[j].cost->0,
{
    let sorted = sorted_by_cost(candidates(hs, total, budget));
    let fix = plan_with(hs, total, budget).fix_allocations;
    lemma_sorted_is_ascending(candidates(hs, total, budget));
    lemma_bought(sorted, budget);
    assert forall|i: int, j: int| 0 <= i <= j < fix.len() implies fix[i].cost->0
        <= fix[j].cost->0 by {
        assert(!dearer(fix[i], fix[j]));
        assert(fix[i].cost is Some && fix[j].cost is Some);
    }
}

/// Every purchase of the first pass has a cost, and together they cost no
/// more than the budget.
pub proof fn lemma_first_pass_within_budget(hs: Seq<Holding>, total: int, budget: int)
    requires
        budget >= 0,
    ensures
        total_cost(plan_with(hs, total, budget).fix_allocations) <= budget,
        forall|i: int|
            0 <= i < plan_with(hs, total, budget).fix_allocations.len() ==> (#[trigger] plan_with(
                hs,
                total,
                budget,
            ).fix_allocations[i]).cost is Some,
{
    lemma_bought(sorted_by_cost(candidates(hs, total, budget)), budget);
}

/// Every purchase of the first pass is the one proposed for a holding that
/// is below its target.
pub proof fn lemma_first_pass_below_target(hs: Seq<Holding>, total: int, budget: int)
    ensures
        forall|i: int|
            0 <= i < plan_with(hs, total, budget).fix_allocations.len()
                ==> proposed_below_target(
                hs,
                total,
                budget,
                #[trigger] plan_with(hs, total, budget).fix_allocations[i],
            ),
{
    let proposed = candidates(hs, total, budget);
    let sorted = sorted_by_cost(proposed);
    let fix = plan_with(hs, total, budget).fix_allocations;
    lemma_bought(sorted, budget);
    lemma_sorted_keeps_content(proposed);
    lemma_candidates_below_target(hs, total, budget);
    assert forall|i: int| 0 <= i < fix.len() implies proposed_below_target(
        hs,
        total,
        budget,
        #[trigger] fix[i],
    ) by {
        let p = fix[i];
        assert(sorted.contains(p));
        vstd::seq_lib::to_multiset_contains(sorted, p);
        vstd::seq_lib::to_multiset_contains(proposed, p);
        let m = choose|m: int| 0 <= m < proposed.len() && proposed[m] == p;
        assert(proposed_below_target(hs, total, budget, proposed[m]));
    }
}

/// A holding at or above its target gets no proposal, and where every
/// holding is at or above its target the first pass buys nothing.
pub proof fn lemma_nothing_bought_at_target(hs: Seq<Holding>, total: int, budget: int)
    requires
        forall|j: int| 0 <= j < hs.len() ==> target_gap(#[trigger] hs[j], total) <= 0,
    ensures
        forall|j: int| 0 <= j < hs.len() ==> candidate(#[trigger] hs[j], total, budget) is None,
        plan_with(hs, total, budget).fix_allocations.len() == 0,
{
    lemma_first_pass_below_target(hs, total, budget);
    let fix = plan_with(hs, total, budget).fix_allocations;
    if fix.len() > 0 {
        assert(proposed_below_target(hs, total, budget, fix[0]));
    }
}

/// The second pass takes the holdings in their order and gives each what
/// remains at that point. Without money or without holdings nothing is
/// bought. Else the first holding gets the whole budget. Where its shares
/// have a price, that purchase costs all there is and the pass ends there.
/// Where they have none, what remains is undefined from there on, and every
/// later holding gets the purchase for an undefined budget.
pub proof fn lemma_leftover_goes_to_first(hs: Seq<Holding>, budget: int)
    ensures
        budget <= 0 || hs.len() == 0 ==> spend_leftover(hs, Some(budget)).bought.len() == 0
            && spend_leftover(hs, Some(budget)).remaining == Some(budget),
        budget > 0 && hs.len() > 0 ==> spend_leftover(hs, Some(budget)).bought[0] == affordable(
            hs[0],
            Some(budget),
        ),
        budget > 0 && hs.len() > 0 && share_price(hs[0]) > 0 ==> spend_leftover(
            hs,
            Some(budget),
        ).bought.len() == 1 && spend_leftover(hs, Some(budget)).remaining == Some(0int),
        budget > 0 && hs.len() > 0 && share_price(hs[0]) <= 0 ==> spend_leftover(
            hs,
            Some(budget),
        ).bought.len() == hs.len() && spend_leftover(hs, Some(budget)).remaining is None
            && forall|i: int|
            1 <= i < hs.len() ==> #[trigger] spend_leftover(hs, Some(budget)).bought[i]
                == affordable(hs[i], None),
    decreases hs.len(),
{
    if hs.len() > 0 {
        lemma_leftover_goes_to_first(hs.drop_last(), budget);
        if budget > 0 && hs.len() > 1 {
            assert(hs.drop_last()[0] == hs[0]);
            if share_price(hs[0]) <= 0 {
                let now = spend_leftover(hs, Some(budget));
                let before = spend_leftover(hs.drop_last(), Some(budget));
                assert forall|i: int| 1 <= i < hs.len() implies #[trigger] now.bought[i]
                    == affordable(hs[i], None) by {
                    if i < hs.len() - 1 {
                        assert(before.bought[i] == affordable(hs.drop_last()[i], None));
                    }
                }
            }
        }
    }
}

/// Where the gap of a holding is exactly the budget, closing the gap and
/// spending the budget are the same purchase: it makes no difference to a
/// proposal whether such a gap counts as within the budget.
pub proof fn lemma_closing_meets_affordable(h: Holding, total: int)
    ensures
        closing(h, total) == affordable(h, Some(target_gap(h, total))),
{
}

/// Where the shares of the first holding have a price, what both passes buy
/// and what remains add up to the budget, and nothing remains; without
/// holdings the budget remains.
pub proof fn lemma_plan_accounts_for_budget(hs: Seq<Holding>, total: int, budget: int)
    requires
        budget >= 0,
        hs.len() > 0 ==> share_price(hs[0]) > 0,
    ensures
        plan_with(hs, total, budget).remaining is Some,
        total_cost(plan_with(hs, total, budget).fix_allocations) + total_cost(
            plan_with(hs, total, budget).extra_cash,
        ) + plan_with(hs, total, budget).remaining->0 == budget,
        hs.len() > 0 ==> plan_with(hs, total, budget).remaining == Some(0int),
        hs.len() == 0 ==> plan_with(hs, total, budget).remaining == Some(budget),
{
    let first = buy_in_order(sorted_by_cost(candidates(hs, total, budget)), budget);
    let second = spend_leftover(hs, Some(first.remaining));
    lemma_bought(sorted_by_cost(candidates(hs, total, budget)), budget);
    lemma_leftover_goes_to_first(hs, first.remaining);
    if first.remaining > 0 && hs.len() > 0 {
        let p = affordable(hs[0], Some(first.remaining));
        assert(second.bought.drop_last() =~= Seq::<Purchase>::empty());
        assert(second.bought.last() == p);
        assert(p.cost == Some(first.remaining));
        assert(total_cost(second.bought) == total_cost(second.bought.drop_last())
            + first.remaining);
    }
}

} // verus!
