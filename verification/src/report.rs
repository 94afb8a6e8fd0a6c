//! The lines of the report.

use vstd::prelude::*;
use crate::allocation::{current_portfolio_state, portfolio_state, shares, Allocation, Share};
use crate::model::{Data, Snapshot};
use crate::rebalance::{plan_for, purchases, where_to_contribute, CalculationResult, Purchase};
use crate::retirement::{
    how_close_to_retirement, outlook_for, Grown, Outlook, Progress, Projected, Ratio,
    RetirementOutlook,
};
use vstd::string::StringExecFns;
use crate::text::{
    decimal_text, digits_of, push_input_amount, push_number, push_plan_amount, push_signed,
    push_signed_percent, push_signed_value, push_value, signed_decimal_text, signed_digits,
};

verus! {

/// The text of a cost: `NaN` where it is undefined.
pub open spec fn cost_text(cost: Option<int>) -> Seq<char> {
    match cost {
        Some(c) => decimal_text(c as nat, 14),
        None => "NaN"@,
    }
}

/// The line that recommends a purchase.
pub open spec fn purchase_line(p: Purchase) -> Seq<char> {
    "Buy "@ + signed_digits(p.shares) + " shares in "@ + p.symbol + " for a cost of "@
        + cost_text(p.cost)
}

/// The text of a share of the portfolio: `NaN` where there is none.
pub open spec fn percent_text(percent: Option<int>) -> Seq<char> {
    match percent {
        Some(a) => decimal_text(a as nat, 4),
        None => "NaN"@,
    }
}

/// The line that states the share of one holding.
pub open spec fn allocation_line(s: Share) -> Seq<char> {
    "You have "@ + digits_of(s.shares as nat) + " shares in "@ + s.symbol
        + " for an allocation of "@ + percent_text(s.percent)
}

/// The text of a grown value.
pub open spec fn grown_text(grown: Grown) -> Seq<char> {
    match grown {
        Grown::Exact(g) => signed_decimal_text(g, 8),
        Grown::AboveLimit => "more than 100000000000000000000000"@,
        Grown::BelowLimit => "less than -100000000000000000000000"@,
        Grown::Infinite => "inf"@,
        Grown::Undefined => "NaN"@,
    }
}

/// The text of a percentage that may not exist. A grown value beyond the
/// limit is far more than any target.
pub open spec fn ratio_text(ratio: Ratio) -> Seq<char> {
    match ratio {
        Ratio::Percent(p) => signed_decimal_text(p, 4),
        Ratio::AboveLimit => "far more than 100"@,
        Ratio::BelowLimit => "far less than -100"@,
        Ratio::Infinite => "inf"@,
        Ratio::NegativeInfinite => "-inf"@,
        Ratio::Undefined => "NaN"@,
    }
}

/// The line that states what retirement needs.
pub open spec fn need_line(o: Outlook) -> Seq<char> {
    "Assuming a withdrawal rate of "@ + digits_of(o.rule as nat) + "%, you need "@ + decimal_text(
        o.target as nat,
        8,
    ) + " to retire"@
}

/// The line that states what the portfolio grows to.
pub open spec fn growth_line(o: Outlook) -> Seq<char> {
    "You will have contributed "@ + decimal_text(o.new_value as nat, 8) + ", which in "@
        + signed_digits(o.years) + " years will be "@ + grown_text(o.grown)
}

/// The line that holds the grown portfolio against what retirement needs.
pub open spec fn progress_line(o: Outlook) -> Seq<char> {
    "This means once you are "@ + signed_digits(o.retirement_age) + ", you will be at "@ + ratio_text(
        o.progress,
    ) + " % of your target"@
}

/// The line that recommends a purchase.
pub fn purchase_text(result: &CalculationResult) -> (line: String)
    ensures
        line@ == purchase_line(result@),
{
    let mut line = String::new();
    line.append("Buy ");
    push_signed(&mut line, result.new_number_of_shares);
    line.append(" shares in ");
    line.append(result.symbol.as_str());
    line.append(" for a cost of ");
    match result.cost {
        Some(c) => {
            push_plan_amount(&mut line, c);
        },
        None => {
            line.append("NaN");
        },
    }
    assert(line@ =~= purchase_line(result@));
    line
}

/// The line that states the share of one position.
pub fn allocation_text(allocation: &Allocation) -> (line: String)
    ensures
        line@ == allocation_line(allocation@),
{
    let mut line = String::new();
    line.append("You have ");
    push_number(&mut line, allocation.number_of_shares as u128);
    line.append(" shares in ");
    line.append(allocation.symbol.as_str());
    line.append(" for an allocation of ");
    match allocation.current_allocation {
        Some(a) => {
            push_input_amount(&mut line, a);
        },
        None => {
            line.append("NaN");
        },
    }
    assert(line@ =~= allocation_line(allocation@));
    line
}

/// The line that states what retirement needs.
pub fn need_text(outlook: &RetirementOutlook) -> (line: String)
    ensures
        line@ == need_line(outlook@),
{
    let mut line = String::new();
    line.append("Assuming a withdrawal rate of ");
    push_number(&mut line, outlook.retirement_rule as u128);
    line.append("%, you need ");
    push_value(&mut line, outlook.target_retirement_portfolio_value);
    line.append(" to retire");
    assert(line@ =~= need_line(outlook@));
    line
}

/// The line that states what the portfolio grows to.
pub fn growth_text(outlook: &RetirementOutlook) -> (line: String)
    ensures
        line@ == growth_line(outlook@),
{
    let mut line = String::new();
    line.append("You will have contributed ");
    push_value(&mut line, outlook.new_value);
    line.append(", which in ");
    push_signed(&mut line, outlook.years_to_pass);
    line.append(" years will be ");
    match outlook.fully_grown_portfolio {
        Projected::Value(g) => {
            push_signed_value(&mut line, g);
        },
        Projected::AboveLimit => {
            line.append("more than 100000000000000000000000");
        },
        Projected::BelowLimit => {
            line.append("less than -100000000000000000000000");
        },
        Projected::Infinite => {
            line.append("inf");
        },
        Projected::Undefined => {
            line.append("NaN");
        },
    }
    assert(line@ =~= growth_line(outlook@));
    line
}

/// The line that holds the grown portfolio against what retirement needs.
pub fn progress_text(outlook: &RetirementOutlook) -> (line: String)
    ensures
        line@ == progress_line(outlook@),
{
    let mut line = String::new();
    line.append("This means once you are ");
    push_signed(&mut line, outlook.target_retirement_age as i64);
    line.append(", you will be at ");
    match outlook.percentage_of_retirement_value {
        Progress::Percent(p) => {
            push_signed_percent(&mut line, p);
        },
        Progress::AboveLimit => {
            line.append("far more than 100");
        },
        Progress::BelowLimit => {
            line.append("far less than -100");
        },
        Progress::Infinite => {
            line.append("inf");
        },
        Progress::NegativeInfinite => {
            line.append("-inf");
        },
        Progress::Undefined => {
            line.append("NaN");
        },
    }
    line.append(" % of your target");
    assert(line@ =~= progress_line(outlook@));
    line
}

/// The texts of a sequence of strings, in order.
pub open spec fn texts(lines: Seq<String>) -> Seq<Seq<char>> {
    Seq::new(lines.len(), |i: int| lines[i]@)
}

/// One line per purchase, in order.
pub open spec fn purchase_lines(ps: Seq<Purchase>) -> Seq<Seq<char>> {
    Seq::new(ps.len(), |i: int| purchase_line(ps[i]))
}

/// One line per share, in order.
pub open spec fn allocation_lines(ss: Seq<Share>) -> Seq<Seq<char>> {
    Seq::new(ss.len(), |i: int| allocation_line(ss[i]))
}

/// The whole report of a snapshot: the shares that the holdings have now, the
/// purchases of both passes, and the retirement projection, each under its
/// heading.
pub open spec fn report_for(s: Snapshot) -> Seq<Seq<char>> {
    let plan = plan_for(s);
    let outlook = outlook_for(s);
    seq!["The portfolio state is the following:"@] + allocation_lines(
        portfolio_state(s.holdings, s.exchange_rate),
    ) + seq![
        "Figure out where to contribute:"@,
        "To fix allocations, make the following purchases"@,
    ] + purchase_lines(plan.fix_allocations) + seq![
        "Use extra contribution cash to do the following"@,
    ] + purchase_lines(plan.extra_cash) + seq![
        "Your distance to retirement:"@,
        need_line(outlook),
        growth_line(outlook),
        progress_line(outlook),
    ]
}

/// Appends a line that holds the given text.
fn push_line(lines: &mut Vec<String>, text: &str)
    ensures
        texts(final(lines)@) == texts(old(lines)@).push(text@),
{
    lines.push(text.to_owned());
    assert(texts(lines@) =~= texts(old(lines)@).push(text@));
}

/// Appends a line.
fn push_text(lines: &mut Vec<String>, line: String)
    ensures
        texts(final(lines)@) == texts(old(lines)@).push(line@),
{
    lines.push(line);
    assert(texts(lines@) =~= texts(old(lines)@).push(line@));
}

/// Appends one line per recommendation.
pub fn push_purchases(lines: &mut Vec<String>, results: &Vec<CalculationResult>)
    ensures
        texts(final(lines)@) == texts(old(lines)@) + purchase_lines(purchases(results@)),
{
    let ghost before = texts(lines@);
    let ghost wanted = purchase_lines(purchases(results@));
    let mut i: usize = 0;
    while i < results.len()
        invariant
            i <= results.len(),
            wanted == purchase_lines(purchases(results@)),
            texts(lines@) == before + wanted.take(i as int),
        decreases results.len() - i,
    {
        let line = purchase_text(&results[i]);
        push_text(lines, line);
        assert(wanted.take(i + 1) =~= wanted.take(i as int).push(wanted[i as int]));
        i += 1;
    }
    assert(wanted.take(i as int) =~= wanted);
}

/// Appends one line per share.
pub fn push_allocations(lines: &mut Vec<String>, state: &Vec<Allocation>)
    ensures
        texts(final(lines)@) == texts(old(lines)@) + allocation_lines(shares(state@)),
{
    let ghost before = texts(lines@);
    let ghost wanted = allocation_lines(shares(state@));
    let mut i: usize = 0;
    while i < state.len()
        invariant
            i <= state.len(),
            wanted == allocation_lines(shares(state@)),
            texts(lines@) == before + wanted.take(i as int),
        decreases state.len() - i,
    {
        let line = allocation_text(&state[i]);
        push_text(lines, line);
        assert(wanted.take(i + 1) =~= wanted.take(i as int).push(wanted[i as int]));
        i += 1;
    }
    assert(wanted.take(i as int) =~= wanted);
}

/// The whole report of a snapshot, line by line.
pub fn render_report(data: &Data) -> (lines: Vec<String>)
    requires
        data@.within_limits(),
    ensures
        texts(lines@) == report_for(data@),
{
    let mut lines: Vec<String> = Vec::new();
    push_line(&mut lines, "The portfolio state is the following:");
    let state = current_portfolio_state(data);
    push_allocations(&mut lines, &state);
    push_line(&mut lines, "Figure out where to contribute:");
    push_line(&mut lines, "To fix allocations, make the following purchases");
    let plan = where_to_contribute(data);
    push_purchases(&mut lines, &plan.fix_allocations);
    push_line(&mut lines, "Use extra contribution cash to do the following");
    push_purchases(&mut lines, &plan.extra_cash);
    push_line(&mut lines, "Your distance to retirement:");
    let outlook = how_close_to_retirement(data);
    push_text(&mut lines, need_text(&outlook));
    push_text(&mut lines, growth_text(&outlook));
    push_text(&mut lines, progress_text(&outlook));
    assert(texts(lines@) =~= report_for(data@));
    lines
}

} // verus!
