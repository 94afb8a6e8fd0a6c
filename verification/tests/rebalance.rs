use portfolio_planner::model::{Data, Stock};
use portfolio_planner::rebalance::{
    budget_from_contribution, buy_affordable, calc_number_of_shares_to_buy,
    determine_result_based_on_contrib_amount, propose_purchases, sort_by_cost,
    spend_leftover_cash, where_to_contribute, CalculationResult,
};

fn stock(symbol: &str, quote: u64, shares: u64, target: u64, is_usd: bool) -> Stock {
    Stock::new(symbol.to_string(), quote, shares, target, is_usd)
}

fn snapshot(stocks: Vec<Stock>, rate: u64, contribution: u64) -> Data {
    Data {
        stocks,
        annual_expenses: 400_000_000,
        target_retirement_age: 65,
        current_age: 30,
        target_growth_rate: 70_000,
        usd_to_cad_exchange_rate: rate,
        expected_contribution: contribution,
    }
}

fn result(symbol: &str, shares: i64, cost: u128) -> CalculationResult {
    CalculationResult { symbol: symbol.to_string(), new_number_of_shares: shares, cost: Some(cost) }
}

fn unpriced(symbol: &str, shares: i64) -> CalculationResult {
    CalculationResult { symbol: symbol.to_string(), new_number_of_shares: shares, cost: None }
}

fn triples(results: &[CalculationResult]) -> Vec<(String, i64, Option<u128>)> {
    results.iter().map(|r| (r.symbol.clone(), r.new_number_of_shares, r.cost)).collect()
}

fn triple(symbol: &str, shares: i64, cost: u128) -> (String, i64, Option<u128>) {
    (symbol.to_string(), shares, Some(cost))
}

fn undefined(symbol: &str, shares: i64) -> (String, i64, Option<u128>) {
    (symbol.to_string(), shares, None)
}

#[test]
fn budget_is_the_contribution_in_plan_amounts() {
    assert_eq!(budget_from_contribution(0), 0);
    assert_eq!(budget_from_contribution(1), 10_000_000_000);
    assert_eq!(budget_from_contribution(10_000_000), 100_000_000_000_000_000);
    assert_eq!(
        budget_from_contribution(u64::MAX),
        184_467_440_737_095_516_150_000_000_000
    );
}

#[test]
fn empty_portfolio_with_one_foreign_holding_buys_only_from_leftover_cash() {
    // One foreign holding, quote 100, no shares, target 100 %, rate 1.3,
    // contribution 1000: the portfolio is worth nothing, so nothing is below
    // target, and all the cash goes to the holding in the second pass.
    let data = snapshot(vec![stock("VTI", 1_000_000, 0, 1_000_000, true)], 13_000, 10_000_000);
    assert!(data.is_within_limits());
    let plan = where_to_contribute(&data);
    assert!(plan.fix_allocations.is_empty());
    assert_eq!(triples(&plan.extra_cash), vec![triple("VTI", 10, 100_000_000_000_000_000)]);
    assert_eq!(plan.remaining, Some(0));
}

#[test]
fn holding_at_target_gets_no_proposal() {
    // Worth exactly half of 1000.
    let s = stock("A", 500_000, 10, 500_000, false);
    assert!(calc_number_of_shares_to_buy(&s, 100_000_000_000, 1_000_000_000_000_000_000).is_none());
}

#[test]
fn holding_above_target_gets_no_proposal() {
    let s = stock("B", 200_000, 25, 400_000, false);
    assert!(calc_number_of_shares_to_buy(&s, 100_000_000_000, 100_000_000_000_000_000).is_none());
}

#[test]
fn holding_below_target_gets_its_gap_where_the_budget_exceeds_it() {
    // Holds 500 of 1000, should hold 600: 100 more, two shares at 50.
    let s = stock("A", 500_000, 10, 600_000, false);
    let r = calc_number_of_shares_to_buy(&s, 100_000_000_000, 100_000_000_000_000_000).unwrap();
    assert_eq!(r.symbol, "A");
    assert_eq!(r.new_number_of_shares, 2);
    assert_eq!(r.cost, Some(10_000_000_000_000_000));
}

#[test]
fn gap_counts_whole_shares_but_costs_the_whole_gap() {
    // Should hold 46 more at 10 a share: 4 whole shares, cost 46.
    let s = stock("Z", 100_000, 0, 200_000, false);
    let r = calc_number_of_shares_to_buy(&s, 23_000_000_000, 1_000_000_000_000_000_000).unwrap();
    assert_eq!(r.new_number_of_shares, 4);
    assert_eq!(r.cost, Some(4_600_000_000_000_000));
}

#[test]
fn holding_below_target_gets_the_budget_where_the_gap_exceeds_it() {
    // Gap 100, budget 30: 0 shares at 50, cost 30.
    let s = stock("A", 500_000, 10, 600_000, false);
    let r = calc_number_of_shares_to_buy(&s, 100_000_000_000, 3_000_000_000_000_000).unwrap();
    assert_eq!(r.new_number_of_shares, 0);
    assert_eq!(r.cost, Some(3_000_000_000_000_000));
}

#[test]
fn gap_equal_to_the_budget_costs_the_budget() {
    let s = stock("A", 500_000, 10, 600_000, false);
    let r = calc_number_of_shares_to_buy(&s, 100_000_000_000, 10_000_000_000_000_000).unwrap();
    assert_eq!(r.new_number_of_shares, 2);
    assert_eq!(r.cost, Some(10_000_000_000_000_000));
}

#[test]
fn foreign_quote_is_not_converted_for_the_gap() {
    // 4 shares at 25 count as 100 held, whatever the rate made of them in the total.
    let s = stock("Y", 250_000, 4, 300_000, true);
    assert!(calc_number_of_shares_to_buy(&s, 23_000_000_000, 5_000_000_000_000_000).is_none());
    let t = stock("Y", 250_000, 4, 500_000, true);
    let r = calc_number_of_shares_to_buy(&t, 23_000_000_000, 5_000_000_000_000_000).unwrap();
    assert_eq!(r.cost, Some(1_500_000_000_000_000));
    assert_eq!(r.new_number_of_shares, 0);
}

#[test]
fn affordable_purchase_spends_all_that_is_there() {
    let s = stock("A", 1_000_000, 3, 0, false);
    let r = determine_result_based_on_contrib_amount(&s, Some(993_900_000_000_000_000));
    assert_eq!(r.symbol, "A");
    assert_eq!(r.new_number_of_shares, 99);
    assert_eq!(r.cost, Some(993_900_000_000_000_000));
}

#[test]
fn affordable_purchase_of_nothing() {
    let s = stock("A", 1_000_000, 3, 0, false);
    let r = determine_result_based_on_contrib_amount(&s, Some(0));
    assert_eq!(r.new_number_of_shares, 0);
    assert_eq!(r.cost, Some(0));
}

#[test]
fn proposals_come_in_the_order_of_the_holdings() {
    let stocks = vec![
        stock("X", 1_000_000, 1, 500_000, false),
        stock("Y", 250_000, 4, 300_000, true),
        stock("Z", 100_000, 0, 200_000, false),
    ];
    let proposed = propose_purchases(&stocks, 23_000_000_000, 1_000_000_000_000_000_000);
    assert_eq!(
        triples(&proposed),
        vec![triple("X", 0, 1_500_000_000_000_000), triple("Z", 4, 4_600_000_000_000_000)]
    );
}

#[test]
fn sort_puts_the_cheapest_first() {
    let sorted = sort_by_cost(vec![
        result("A", 1, 30),
        result("B", 2, 10),
        result("C", 3, 20),
        result("D", 4, 5),
    ]);
    assert_eq!(
        triples(&sorted),
        vec![triple("D", 4, 5), triple("B", 2, 10), triple("C", 3, 20), triple("A", 1, 30)]
    );
}

#[test]
fn sort_keeps_the_order_of_equal_costs() {
    let sorted = sort_by_cost(vec![
        result("A", 1, 7),
        result("B", 2, 3),
        result("C", 3, 7),
        result("D", 4, 3),
        result("E", 5, 7),
    ]);
    assert_eq!(
        triples(&sorted),
        vec![
            triple("B", 2, 3),
            triple("D", 4, 3),
            triple("A", 1, 7),
            triple("C", 3, 7),
            triple("E", 5, 7)
        ]
    );
}

#[test]
fn sort_of_nothing_and_of_one() {
    assert!(sort_by_cost(Vec::new()).is_empty());
    assert_eq!(triples(&sort_by_cost(vec![result("A", 1, 7)])), vec![triple("A", 1, 7)]);
}

#[test]
fn buying_drops_what_costs_more_than_remains_and_goes_on() {
    let (bought, remaining) = buy_affordable(
        vec![result("A", 1, 10), result("B", 2, 50), result("C", 3, 60), result("D", 4, 30)],
        100,
    );
    assert_eq!(triples(&bought), vec![triple("A", 1, 10), triple("B", 2, 50), triple("D", 4, 30)]);
    assert_eq!(remaining, 10);
}

#[test]
fn buying_takes_what_costs_exactly_what_remains() {
    let (bought, remaining) = buy_affordable(vec![result("A", 1, 40), result("B", 2, 60)], 100);
    assert_eq!(triples(&bought), vec![triple("A", 1, 40), triple("B", 2, 60)]);
    assert_eq!(remaining, 0);
}

#[test]
fn buying_nothing_leaves_the_budget() {
    let (bought, remaining) = buy_affordable(Vec::new(), 100);
    assert!(bought.is_empty());
    assert_eq!(remaining, 100);
}

#[test]
fn leftover_cash_goes_to_the_first_holding() {
    let stocks = vec![stock("X", 1_000_000, 1, 0, false), stock("Z", 100_000, 0, 0, false)];
    let (bought, remaining) = spend_leftover_cash(&stocks, 3_500_000_000_000_000);
    assert_eq!(triples(&bought), vec![triple("X", 0, 3_500_000_000_000_000)]);
    assert_eq!(remaining, Some(0));
}

#[test]
fn no_leftover_cash_buys_nothing() {
    let stocks = vec![stock("X", 1_000_000, 1, 0, false), stock("Z", 100_000, 0, 0, false)];
    let (bought, remaining) = spend_leftover_cash(&stocks, 0);
    assert!(bought.is_empty());
    assert_eq!(remaining, Some(0));
}

#[test]
fn leftover_cash_without_holdings_stays() {
    let (bought, remaining) = spend_leftover_cash(&Vec::new(), 77);
    assert!(bought.is_empty());
    assert_eq!(remaining, Some(77));
}

#[test]
fn plan_closes_the_gap_and_spends_the_rest() {
    let data = snapshot(
        vec![stock("A", 500_000, 10, 600_000, false), stock("B", 200_000, 25, 400_000, false)],
        10_000,
        10_000_000,
    );
    let plan = where_to_contribute(&data);
    assert_eq!(triples(&plan.fix_allocations), vec![triple("A", 2, 10_000_000_000_000_000)]);
    assert_eq!(triples(&plan.extra_cash), vec![triple("A", 18, 90_000_000_000_000_000)]);
    assert_eq!(plan.remaining, Some(0));
}

#[test]
fn proposal_made_against_the_full_budget_is_dropped_once_money_is_spent() {
    // X lacks 15, Z lacks 46, the budget is 50: both were proposed in full,
    // X is bought, and Z no longer fits into the 35 that remain.
    let data = snapshot(
        vec![
            stock("X", 1_000_000, 1, 500_000, false),
            stock("Y", 250_000, 4, 300_000, true),
            stock("Z", 100_000, 0, 200_000, false),
        ],
        13_000,
        500_000,
    );
    let plan = where_to_contribute(&data);
    assert_eq!(triples(&plan.fix_allocations), vec![triple("X", 0, 1_500_000_000_000_000)]);
    assert_eq!(triples(&plan.extra_cash), vec![triple("X", 0, 3_500_000_000_000_000)]);
    assert_eq!(plan.remaining, Some(0));
}

#[test]
fn holding_bought_in_the_first_pass_is_bought_again_in_the_second() {
    let data = snapshot(
        vec![
            stock("X", 1_000_000, 1, 500_000, false),
            stock("Y", 250_000, 4, 300_000, true),
            stock("Z", 100_000, 0, 200_000, false),
        ],
        13_000,
        100_000_000,
    );
    let plan = where_to_contribute(&data);
    assert_eq!(
        triples(&plan.fix_allocations),
        vec![triple("X", 0, 1_500_000_000_000_000), triple("Z", 4, 4_600_000_000_000_000)]
    );
    assert_eq!(triples(&plan.extra_cash), vec![triple("X", 99, 993_900_000_000_000_000)]);
    assert_eq!(plan.remaining, Some(0));
}

#[test]
fn second_of_two_proposals_for_the_whole_budget_is_dropped() {
    let data = snapshot(
        vec![
            stock("P", 1_000_000, 0, 500_000, false),
            stock("Q", 400_000, 0, 500_000, false),
            stock("R", 100_000, 100, 0, false),
        ],
        10_000,
        300_000,
    );
    let plan = where_to_contribute(&data);
    assert_eq!(triples(&plan.fix_allocations), vec![triple("P", 0, 3_000_000_000_000_000)]);
    assert!(plan.extra_cash.is_empty());
    assert_eq!(plan.remaining, Some(0));
}

#[test]
fn no_contribution_proposes_purchases_of_nothing() {
    let data = snapshot(
        vec![stock("A", 500_000, 10, 600_000, false), stock("B", 200_000, 25, 400_000, false)],
        10_000,
        0,
    );
    let plan = where_to_contribute(&data);
    assert_eq!(triples(&plan.fix_allocations), vec![triple("A", 0, 0)]);
    assert!(plan.extra_cash.is_empty());
    assert_eq!(plan.remaining, Some(0));
}

#[test]
fn no_holdings_leave_the_contribution_unspent() {
    let plan = where_to_contribute(&snapshot(Vec::new(), 13_000, 10_000_000));
    assert!(plan.fix_allocations.is_empty());
    assert!(plan.extra_cash.is_empty());
    assert_eq!(plan.remaining, Some(100_000_000_000_000_000));
}

#[test]
fn first_pass_is_ascending_and_within_the_budget() {
    let quotes = [1_000_000u64, 250_000, 100_000, 777_700, 31_400, 5_000_000];
    let targets = [300_000u64, 100_000, 150_000, 200_000, 50_000, 200_000];
    for contribution in [0u64, 1, 999, 500_000, 10_000_000, 3_000_000_000] {
        for shift in 0..6usize {
            let stocks: Vec<Stock> = (0..6usize)
                .map(|i| {
                    let k = (i + shift) % 6;
                    stock("S", quotes[i], (k * k) as u64, targets[k], i % 2 == 0)
                })
                .collect();
            let plan = where_to_contribute(&snapshot(stocks, 13_000, contribution));
            let costs: Vec<u128> = plan.fix_allocations.iter().map(|r| r.cost.unwrap()).collect();
            assert!(costs.windows(2).all(|w| w[0] <= w[1]));
            let budget = budget_from_contribution(contribution);
            assert!(costs.iter().sum::<u128>() <= budget);
            assert!(plan.extra_cash.len() <= 1);
            let spent: u128 = plan.extra_cash.iter().map(|r| r.cost.unwrap()).sum::<u128>()
                + costs.iter().sum::<u128>();
            assert_eq!(spent + plan.remaining.unwrap(), budget);
        }
    }
}

#[test]
fn undefined_budget_buys_no_share_at_an_undefined_cost() {
    let s = stock("A", 1_000_000, 3, 0, false);
    let r = determine_result_based_on_contrib_amount(&s, None);
    assert_eq!((r.symbol.as_str(), r.new_number_of_shares, r.cost), ("A", 0, None));
}

#[test]
fn quote_of_nothing_buys_shares_without_number_at_an_undefined_cost() {
    let s = stock("FREE", 0, 3, 0, false);
    let r = determine_result_based_on_contrib_amount(&s, Some(5_000_000_000_000_000));
    assert_eq!(r.new_number_of_shares, 9_223_372_036_854_775_807);
    assert_eq!(r.cost, None);
    let r = determine_result_based_on_contrib_amount(&s, Some(0));
    assert_eq!(r.new_number_of_shares, 0);
    assert_eq!(r.cost, None);
    let r = determine_result_based_on_contrib_amount(&s, None);
    assert_eq!(r.new_number_of_shares, 0);
    assert_eq!(r.cost, None);
}

#[test]
fn quote_of_nothing_is_proposed_where_a_target_is_set() {
    // Any target above nothing of a portfolio worth something is a gap.
    let s = stock("FREE", 0, 3, 500_000, false);
    let r = calc_number_of_shares_to_buy(&s, 23_000_000_000, 5_000_000_000_000_000).unwrap();
    assert_eq!(r.new_number_of_shares, 9_223_372_036_854_775_807);
    assert_eq!(r.cost, None);
    // No target, or a portfolio worth nothing: no gap.
    let t = stock("FREE", 0, 3, 0, false);
    assert!(calc_number_of_shares_to_buy(&t, 23_000_000_000, 5_000_000_000_000_000).is_none());
    assert!(calc_number_of_shares_to_buy(&s, 0, 5_000_000_000_000_000).is_none());
}

#[test]
fn sort_puts_undefined_costs_last_in_their_order() {
    let sorted = sort_by_cost(vec![
        unpriced("N1", 1),
        result("A", 1, 30),
        unpriced("N2", 2),
        result("B", 2, 10),
        result("C", 3, 0),
        unpriced("N3", 3),
    ]);
    assert_eq!(
        triples(&sorted),
        vec![
            triple("C", 3, 0),
            triple("B", 2, 10),
            triple("A", 1, 30),
            undefined("N1", 1),
            undefined("N2", 2),
            undefined("N3", 3)
        ]
    );
}

#[test]
fn buying_drops_what_has_no_cost() {
    let (bought, remaining) =
        buy_affordable(vec![unpriced("N", 9), result("A", 1, 10), unpriced("M", 9)], 100);
    assert_eq!(triples(&bought), vec![triple("A", 1, 10)]);
    assert_eq!(remaining, 90);
}

#[test]
fn leftover_cash_for_a_quote_of_nothing_leaves_the_rest_undefined() {
    let stocks = vec![
        stock("FREE", 0, 1, 0, false),
        stock("X", 1_000_000, 1, 0, false),
        stock("ALSO", 0, 1, 0, true),
    ];
    let (bought, remaining) = spend_leftover_cash(&stocks, 3_500_000_000_000_000);
    assert_eq!(
        triples(&bought),
        vec![undefined("FREE", i64::MAX), undefined("X", 0), undefined("ALSO", 0)]
    );
    assert_eq!(remaining, None);
}

#[test]
fn leftover_cash_reaches_a_quote_of_nothing_only_while_money_remains() {
    let stocks = vec![stock("X", 1_000_000, 1, 0, false), stock("FREE", 0, 1, 0, false)];
    let (bought, remaining) = spend_leftover_cash(&stocks, 3_500_000_000_000_000);
    assert_eq!(triples(&bought), vec![triple("X", 0, 3_500_000_000_000_000)]);
    assert_eq!(remaining, Some(0));
}

#[test]
fn plan_with_quotes_of_nothing_is_made() {
    // Two holdings quoted at nothing with a target of 50 % each beside one
    // worth 1000, and 100 to spend.
    let data = snapshot(
        vec![
            stock("FREE", 0, 0, 500_000, false),
            stock("ALSO", 0, 0, 500_000, false),
            stock("X", 1_000_000, 10, 0, false),
        ],
        13_000,
        1_000_000,
    );
    assert!(data.is_within_limits());
    let plan = where_to_contribute(&data);
    assert!(plan.fix_allocations.is_empty());
    assert_eq!(
        triples(&plan.extra_cash),
        vec![undefined("FREE", i64::MAX), undefined("ALSO", 0), undefined("X", 0)]
    );
    assert_eq!(plan.remaining, None);
}

#[test]
fn plan_with_a_quote_of_nothing_behind_a_priced_holding() {
    let data = snapshot(
        vec![stock("X", 1_000_000, 10, 0, false), stock("FREE", 0, 0, 500_000, false)],
        13_000,
        1_000_000,
    );
    let plan = where_to_contribute(&data);
    assert!(plan.fix_allocations.is_empty());
    assert_eq!(triples(&plan.extra_cash), vec![triple("X", 1, 10_000_000_000_000_000)]);
    assert_eq!(plan.remaining, Some(0));
}

#[test]
fn recommendations_are_equal_where_all_fields_are() {
    assert!(result("A", 1, 10) == result("A", 1, 10));
    assert!(result("A", 1, 10) != result("B", 1, 10));
    assert!(result("A", 1, 10) != result("A", 2, 10));
    assert!(result("A", 1, 10) != result("A", 1, 11));
    assert!(unpriced("A", 1) != unpriced("A", 1));
    assert!(unpriced("A", 1) != result("A", 1, 0));
    assert!(result("A", 1, 0) != unpriced("A", 1));
}

#[test]
fn recommendations_are_ordered_by_cost_alone() {
    assert!(result("Z", 9, 10) < result("A", 1, 11));
    assert!(result("A", 1, 11) > result("Z", 9, 10));
    assert!(result("A", 1, 10) <= result("B", 2, 10));
    assert!(result("A", 1, 10) >= result("B", 2, 10));
    assert_eq!(
        result("A", 1, 10).partial_cmp(&result("B", 2, 10)),
        Some(std::cmp::Ordering::Equal)
    );
    assert_eq!(unpriced("A", 1).partial_cmp(&result("B", 2, 10)), None);
    assert_eq!(result("B", 2, 10).partial_cmp(&unpriced("A", 1)), None);
    assert_eq!(unpriced("A", 1).partial_cmp(&unpriced("A", 1)), None);
    assert!(!(unpriced("A", 1) < result("B", 2, 10)));
    assert!(!(unpriced("A", 1) > result("B", 2, 10)));
}

#[test]
fn share_count_is_capped_at_the_largest_count() {
    // One share costs 10000000000 plan amounts.
    let s = stock("PENNY", 1, 0, 0, false);
    let r = determine_result_based_on_contrib_amount(&s, Some(u128::MAX));
    assert_eq!(r.new_number_of_shares, i64::MAX);
    assert_eq!(r.cost, Some(u128::MAX));
    let exactly = 9_223_372_036_854_775_807u128 * 10_000_000_000;
    let r = determine_result_based_on_contrib_amount(&s, Some(exactly));
    assert_eq!(r.new_number_of_shares, i64::MAX);
    let r = determine_result_based_on_contrib_amount(&s, Some(exactly + 10_000_000_000));
    assert_eq!(r.new_number_of_shares, i64::MAX);
    let r = determine_result_based_on_contrib_amount(&s, Some(exactly - 1));
    assert_eq!(r.new_number_of_shares, i64::MAX - 1);
}

#[test]
fn share_count_of_a_gap_is_capped_too() {
    // A target of 1000 % of the largest total, at the smallest quote:
    // the gap pays 10^27 shares.
    let s = stock("PENNY", 1, 0, 10_000_000, false);
    let total = 1_000_000_000_000_000_000_000_000_000_000u128;
    let r = calc_number_of_shares_to_buy(&s, total, u128::MAX).unwrap();
    assert_eq!(r.cost, Some(10_000_000_000_000_000_000_000_000_000_000_000_000));
    assert_eq!(r.new_number_of_shares, i64::MAX);
}
