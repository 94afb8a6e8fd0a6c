use portfolio_planner::model::{stocks_within_limits, Data, Stock};
use portfolio_planner::units::{MAX_HOLDINGS, MAX_PERCENT, MAX_QUOTE, MAX_RATE, MAX_SHARES};
use portfolio_planner::valuation::{calc_portfolio_val, calc_value_of_stock};

fn stock(symbol: &str, quote: u64, shares: u64, target: u64, is_usd: bool) -> Stock {
    Stock::new(symbol.to_string(), quote, shares, target, is_usd)
}

#[test]
fn native_holding_is_quote_times_shares() {
    // 12.50 a share, 8 shares: 100 currency units, in hundred-millionths.
    let s = stock("XIC", 125_000, 8, 0, false);
    assert_eq!(calc_value_of_stock(&s, 13_000), 10_000_000_000);
}

#[test]
fn foreign_holding_is_converted_at_the_rate() {
    // 25 a share, 4 shares, at 1.3: 130 currency units.
    let s = stock("VTI", 250_000, 4, 0, true);
    assert_eq!(calc_value_of_stock(&s, 13_000), 13_000_000_000);
}

#[test]
fn quote_of_zero_is_worth_nothing() {
    assert_eq!(calc_value_of_stock(&stock("A", 0, 17, 0, false), 13_000), 0);
    assert_eq!(calc_value_of_stock(&stock("A", 0, 17, 0, true), 13_000), 0);
}

#[test]
fn no_shares_are_worth_nothing() {
    assert_eq!(calc_value_of_stock(&stock("A", 999_999, 0, 0, false), 13_000), 0);
    assert_eq!(calc_value_of_stock(&stock("A", 999_999, 0, 0, true), 13_000), 0);
}

#[test]
fn twice_the_shares_are_worth_twice_as_much() {
    for is_usd in [false, true] {
        for shares in [0u64, 1, 7, 1_000, 499_999_999] {
            let once = calc_value_of_stock(&stock("A", 1_234_567, shares, 0, is_usd), 13_579);
            let twice = calc_value_of_stock(&stock("A", 1_234_567, 2 * shares, 0, is_usd), 13_579);
            assert_eq!(twice, 2 * once);
        }
    }
}

#[test]
fn largest_holding_fits() {
    let s = stock("BIG", MAX_QUOTE, MAX_SHARES, MAX_PERCENT, true);
    assert!(s.is_within_limits());
    assert_eq!(
        calc_value_of_stock(&s, MAX_RATE),
        100_000_000_000_000_000_000_000_000
    );
}

#[test]
fn empty_portfolio_is_worth_nothing() {
    assert_eq!(calc_portfolio_val(&Vec::new(), 13_000), 0);
}

#[test]
fn portfolio_is_the_sum_of_its_holdings() {
    let stocks = vec![
        stock("X", 1_000_000, 1, 500_000, false),
        stock("Y", 250_000, 4, 300_000, true),
        stock("Z", 100_000, 0, 200_000, false),
    ];
    // 100 + 130 + 0 currency units.
    assert_eq!(calc_portfolio_val(&stocks, 13_000), 23_000_000_000);
}

#[test]
fn total_is_the_same_in_any_order() {
    let make = |order: [usize; 4]| -> Vec<Stock> {
        let all = [
            ("A", 333_300u64, 3u64, true),
            ("B", 101_000, 7, false),
            ("C", 12_345, 11, true),
            ("D", 9_999_999, 123, false),
        ];
        order
            .iter()
            .map(|&i| stock(all[i].0, all[i].1, all[i].2, 0, all[i].3))
            .collect()
    };
    let first = calc_portfolio_val(&make([0, 1, 2, 3]), 13_000);
    for order in [[3, 2, 1, 0], [1, 0, 3, 2], [2, 3, 0, 1], [0, 2, 1, 3]] {
        assert_eq!(calc_portfolio_val(&make(order), 13_000), first);
    }
}

#[test]
fn holding_beyond_a_limit_is_told() {
    assert!(stock("A", MAX_QUOTE, MAX_SHARES, MAX_PERCENT, false).is_within_limits());
    assert!(!stock("A", MAX_QUOTE + 1, 1, 1, false).is_within_limits());
    assert!(!stock("A", 1, MAX_SHARES + 1, 1, false).is_within_limits());
    assert!(!stock("A", 1, 1, MAX_PERCENT + 1, false).is_within_limits());
}

#[test]
fn too_many_holdings_are_told() {
    let mut stocks: Vec<Stock> = Vec::new();
    for _ in 0..MAX_HOLDINGS {
        stocks.push(stock("A", 1, 1, 1, false));
    }
    assert!(stocks_within_limits(&stocks));
    stocks.push(stock("A", 1, 1, 1, false));
    assert!(!stocks_within_limits(&stocks));
}

#[test]
fn one_holding_beyond_a_limit_spoils_the_portfolio() {
    let stocks = vec![
        stock("A", 1, 1, 1, false),
        stock("B", 1, MAX_SHARES + 1, 1, false),
        stock("C", 1, 1, 1, false),
    ];
    assert!(!stocks_within_limits(&stocks));
}

#[test]
fn snapshot_beyond_a_limit_is_told() {
    let good = || Data {
        stocks: vec![stock("A", 0, 1, 1, false)],
        annual_expenses: u64::MAX,
        target_retirement_age: i32::MAX,
        current_age: i32::MIN,
        target_growth_rate: MAX_PERCENT as i64,
        usd_to_cad_exchange_rate: MAX_RATE,
        expected_contribution: u64::MAX,
    };
    assert!(good().is_within_limits());
    let mut d = good();
    d.target_growth_rate += 1;
    assert!(!d.is_within_limits());
    let mut d = good();
    d.target_growth_rate = -(MAX_PERCENT as i64);
    assert!(d.is_within_limits());
    d.target_growth_rate -= 1;
    assert!(!d.is_within_limits());
    let mut d = good();
    d.usd_to_cad_exchange_rate += 1;
    assert!(!d.is_within_limits());
    let mut d = good();
    d.stocks.push(stock("B", MAX_QUOTE + 1, 1, 1, false));
    assert!(!d.is_within_limits());
}
