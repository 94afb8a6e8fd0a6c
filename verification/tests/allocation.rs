use portfolio_planner::allocation::{current_allocation, current_portfolio_state};
use portfolio_planner::model::{Data, Stock};

fn stock(symbol: &str, quote: u64, shares: u64, is_usd: bool) -> Stock {
    Stock::new(symbol.to_string(), quote, shares, 0, is_usd)
}

fn snapshot(stocks: Vec<Stock>) -> Data {
    Data {
        stocks,
        annual_expenses: 400_000_000,
        target_retirement_age: 65,
        current_age: 30,
        target_growth_rate: 70_000,
        usd_to_cad_exchange_rate: 13_000,
        expected_contribution: 10_000_000,
    }
}

#[test]
fn share_is_value_over_total_in_percent() {
    // 130 of 230: 56.5217 %.
    let line = current_allocation(&stock("Y", 250_000, 4, true), 13_000, 23_000_000_000);
    assert_eq!(line.symbol, "Y");
    assert_eq!(line.number_of_shares, 4);
    assert_eq!(line.current_allocation, Some(565_217));
}

#[test]
fn share_of_nothing_is_undefined() {
    let line = current_allocation(&stock("Y", 250_000, 4, true), 13_000, 0);
    assert_eq!(line.current_allocation, None);
}

#[test]
fn report_has_one_line_per_holding_in_order() {
    let data = snapshot(vec![
        stock("X", 1_000_000, 1, false),
        stock("Y", 250_000, 4, true),
        stock("Z", 100_000, 0, false),
    ]);
    let lines = current_portfolio_state(&data);
    let got: Vec<(String, u64, Option<u128>)> = lines
        .iter()
        .map(|l| (l.symbol.clone(), l.number_of_shares, l.current_allocation))
        .collect();
    assert_eq!(
        got,
        vec![
            ("X".to_string(), 1, Some(434_782)),
            ("Y".to_string(), 4, Some(565_217)),
            ("Z".to_string(), 0, Some(0)),
        ]
    );
}

#[test]
fn single_holding_has_all_of_the_portfolio() {
    let lines = current_portfolio_state(&snapshot(vec![stock("X", 123_456, 789, true)]));
    assert_eq!(lines[0].current_allocation, Some(1_000_000));
}

#[test]
fn portfolio_worth_nothing_has_no_shares() {
    let data = snapshot(vec![stock("X", 1_000_000, 0, false), stock("Y", 0, 4, true)]);
    let lines = current_portfolio_state(&data);
    assert_eq!(lines.len(), 2);
    assert!(lines.iter().all(|l| l.current_allocation.is_none()));
}

#[test]
fn no_holdings_give_no_lines() {
    assert!(current_portfolio_state(&snapshot(Vec::new())).is_empty());
}

#[test]
fn shares_add_up_to_one_hundred_percent() {
    let data = snapshot(vec![
        stock("A", 333_300, 3, false),
        stock("B", 101_000, 7, true),
        stock("C", 12_345, 11, false),
    ]);
    let lines = current_portfolio_state(&data);
    let shares: Vec<u128> = lines.iter().map(|l| l.current_allocation.unwrap()).collect();
    assert_eq!(shares, vec![486_617, 447_295, 66_086]);
    let sum: u128 = shares.iter().sum();
    assert_eq!(sum, 999_998);
    assert!(sum <= 1_000_000 && sum + 3 > 1_000_000);
    let percent = sum as f64 / 10_000.0;
    assert!((percent - 100.0).abs() < 0.001);
}

#[test]
fn small_holding_of_some_value_has_a_share_above_nothing() {
    // 1 beside 1000000000: the exact share is 0.0000001 %.
    let data = snapshot(vec![stock("SMALL", 10_000, 1, false), stock("BIG", 10_000, 1_000_000_000, false)]);
    let lines = current_portfolio_state(&data);
    assert_eq!(lines[0].current_allocation, Some(1));
    assert_eq!(lines[1].current_allocation, Some(999_999));
}

#[test]
fn share_is_nothing_only_without_value() {
    let data = snapshot(vec![
        stock("NONE", 10_000, 0, false),
        stock("FREE", 0, 5, true),
        stock("SMALL", 1, 1, false),
        stock("BIG", 10_000_000_000, 1_000_000_000, true),
    ]);
    let shares: Vec<Option<u128>> =
        current_portfolio_state(&data).iter().map(|l| l.current_allocation).collect();
    assert_eq!(shares, vec![Some(0), Some(0), Some(1), Some(999_999)]);
}

#[test]
fn shares_raised_to_one_unit_add_up_within_one_unit_each() {
    let mut stocks = vec![stock("BIG", 10_000_000_000, 1_000_000_000, false)];
    for _ in 0..9 {
        stocks.push(stock("SMALL", 1, 1, false));
    }
    let lines = current_portfolio_state(&snapshot(stocks));
    let sum: u128 = lines.iter().map(|l| l.current_allocation.unwrap()).sum();
    assert_eq!(sum, 1_000_008);
    assert!(sum > 1_000_000 - 10 && sum <= 1_000_000 + 10);
}
