//! How far the portfolio will be from what retirement needs.
//!
//! Growth is compounded once a year and rounded toward nothing to the next
//! hundred-millionth each year; years that lie in the past are undone the
//! same way.

use vstd::prelude::*;
use vstd::arithmetic::div_mod::lemma_fundamental_div_mod;
use vstd::arithmetic::power::{lemma_pow_positive, pow};
use crate::allocation::portion;
use crate::model::{all_within_limits, Data, Snapshot};
use crate::units::{
    hundred_percent, scale, HUNDRED_PERCENT, MAX_HOLDINGS, MAX_PERCENT, MAX_PROJECTED, MAX_RATE,
    SCALE,
};
use crate::valuation::{calc_portfolio_val, max_value, total_value};

verus! {

/// Yearly withdrawal in retirement, in percent of the portfolio.
pub const RETIREMENT_RULE: u64 = 4;

/// `value` after `years` steps, each of which multiplies by `num / den` and
/// rounds down.
pub open spec fn compound(value: int, num: int, den: int, years: nat) -> int
    decreases years,
{
    if years == 0 {
        value
    } else {
        compound(value, num, den, (years - 1) as nat) * num / den
    }
}


/// What one unit becomes in a year at `rate`, in ten-thousandths of a percent.
/// At a rate of minus one hundred percent it is nothing; below that it is
/// negative, and the value changes its sign every year.
pub open spec fn growth_factor(rate: int) -> int {
    hundred_percent() + rate
}

/// A value that growth has led to.
pub enum Grown {
    /// In hundred-millionths, between `-MAX_PROJECTED` and `MAX_PROJECTED`.
    Exact(int),
    /// More than `MAX_PROJECTED`.
    AboveLimit,
    /// Less than `-MAX_PROJECTED`.
    BelowLimit,
    /// Something divided by nothing.
    Infinite,
    /// Nothing divided by nothing.
    Undefined,
}

/// Whether the value has changed its sign: after an odd number of years at a
/// negative factor.
pub open spec fn turns_negative(rate: int, years: int) -> bool {
    growth_factor(rate) < 0 && years % 2 != 0
}

/// The size of `value` after `years` years at `rate`; for negative `years`,
/// of what it was that many years ago. Each year is rounded toward nothing,
/// but something is never rounded to nothing: what is left of it is at least
/// one hundred-millionth.
pub open spec fn grown_size(value: int, rate: int, years: int) -> int {
    let factor = if growth_factor(rate) < 0 {
        -growth_factor(rate)
    } else {
        growth_factor(rate)
    };
    let rounded = if years >= 0 {
        compound(value, factor, hundred_percent(), years as nat)
    } else {
        compound(value, hundred_percent(), factor, (-years) as nat)
    };
    if rounded == 0 && value > 0 && (years <= 0 || factor != 0) {
        1
    } else {
        rounded
    }
}

/// `value` after `years` years of growth at `rate`; for negative `years`,
/// what it was that many years ago. Years ago at a factor of nothing, the
/// value was divided by nothing.
pub open spec fn grown(value: int, rate: int, years: int) -> Grown {
    if years < 0 && growth_factor(rate) == 0 {
        if value > 0 {
            Grown::Infinite
        } else {
            Grown::Undefined
        }
    } else if grown_size(value, rate, years) > MAX_PROJECTED {
        if turns_negative(rate, years) {
            Grown::BelowLimit
        } else {
            Grown::AboveLimit
        }
    } else if turns_negative(rate, years) {
        Grown::Exact(-grown_size(value, rate, years))
    } else {
        Grown::Exact(grown_size(value, rate, years))
    }
}

/// The portfolio that yields `annual_expenses` at the retirement rule, as a
/// value.
pub open spec fn target_portfolio_value(annual_expenses: int) -> int {
    annual_expenses * scale() * 100 / (RETIREMENT_RULE as int)
}

/// A quotient that may not exist.
pub enum Ratio {
    /// In ten-thousandths of a percent.
    Percent(int),
    /// The dividend is above the limit, the divisor is not nothing.
    AboveLimit,
    /// The dividend is below the limit, the divisor is not nothing.
    BelowLimit,
    /// Something above nothing, divided by nothing.
    Infinite,
    /// Something below nothing, divided by nothing.
    NegativeInfinite,
    /// Nothing divided by nothing.
    Undefined,
}

/// The grown value in percent of the target. A grown value that is not
/// nothing is never nothing percent of a target: what is left of the
/// percentage is at least one ten-thousandth.
pub open spec fn percent_of_target(grown: Grown, target: int) -> Ratio {
    match grown {
        Grown::Exact(g) => if target != 0 {
            if g < 0 {
                Ratio::Percent(-portion(-g, target))
            } else {
                Ratio::Percent(portion(g, target))
            }
        } else if g > 0 {
            Ratio::Infinite
        } else if g < 0 {
            Ratio::NegativeInfinite
        } else {
            Ratio::Undefined
        },
        Grown::AboveLimit => if target != 0 {
            Ratio::AboveLimit
        } else {
            Ratio::Infinite
        },
        Grown::BelowLimit => if target != 0 {
            Ratio::BelowLimit
        } else {
            Ratio::NegativeInfinite
        },
        Grown::Infinite => Ratio::Infinite,
        Grown::Undefined => Ratio::Undefined,
    }
}

/// With a factor of at least one, no step makes the value smaller; with a
/// factor of at most one, no step makes it larger. It is never negative.
pub proof fn lemma_compound_step(value: int, num: int, den: int, years: nat)
    requires
        value >= 0,
        num >= 0,
        den > 0,
    ensures
        compound(value, num, den, years) >= 0,
        num >= den ==> compound(value, num, den, years) <= compound(value, num, den, years + 1),
        num <= den ==> compound(value, num, den, years) >= compound(value, num, den, years + 1),
    decreases years,
{
    if years > 0 {
        lemma_compound_step(value, num, den, (years - 1) as nat);
    }
    let c = compound(value, num, den, years);
    assert(c >= 0) by {
        if years > 0 {
            let b = compound(value, num, den, (years - 1) as nat);
            assert(b * num / den >= 0) by (nonlinear_arith)
                requires
                    b >= 0,
                    num >= 0,
                    den > 0,
            ;
        }
    }
    assert(compound(value, num, den, years + 1) == c * num / den);
    assert(num >= den ==> c * num / den >= c) by (nonlinear_arith)
        requires
            c >= 0,
            den > 0,
    ;
    assert(num <= den ==> c * num / den <= c) by (nonlinear_arith)
        requires
            c >= 0,
            num >= 0,
            den > 0,
    ;
}

/// With a factor of at least one the value never falls over the years; with a
/// factor of at most one it never rises.
pub proof fn lemma_compound_monotone(value: int, num: int, den: int, early: nat, late: nat)
    requires
        value >= 0,
        num >= 0,
        den > 0,
        early <= late,
    ensures
        num >= den ==> compound(value, num, den, early) <= compound(value, num, den, late),
        num <= den ==> compound(value, num, den, early) >= compound(value, num, den, late),
    decreases late - early,
{
    if early < late {
        lemma_compound_monotone(value, num, den, early, (late - 1) as nat);
        lemma_compound_step(value, num, den, (late - 1) as nat);
    }
}

/// Once a step leaves the value as it is, so does every later step.
pub proof fn lemma_compound_settles(value: int, num: int, den: int, early: nat, late: nat)
    requires
        early <= late,
        compound(value, num, den, early + 1) == compound(value, num, den, early),
    ensures
        compound(value, num, den, late) == compound(value, num, den, early),
    decreases late - early,
{
    if early < late {
        lemma_compound_settles(value, num, den, early, (late - 1) as nat);
    }
}

/// Upper bound of what rounding down has cost after `years` steps: what it
/// had cost a step earlier grows by the factor, and the step loses less than
/// two units more.
pub open spec fn rounding_slack(num: int, den: int, years: nat) -> int
    decreases years,
{
    if years == 0 {
        0
    } else {
        rounding_slack(num, den, (years - 1) as nat) * num / den + 2
    }
}

/// Compounding with rounding stays close to exact compounding: it is never
/// more than `value * (num / den) ^ years`, and short of it by no more than
/// the rounding slack.
pub proof fn lemma_compound_near_exact(value: int, num: int, den: int, years: nat)
    requires
        value >= 0,
        num >= 0,
        den > 0,
    ensures
        compound(value, num, den, years) * pow(den, years) <= value * pow(num, years),
        value * pow(num, years) <= (compound(value, num, den, years) + rounding_slack(
            num,
            den,
            years,
        )) * pow(den, years),
        rounding_slack(num, den, years) >= 0,
    decreases years,
{
    reveal(pow);
    if years > 0 {
        let k = (years - 1) as nat;
        lemma_compound_near_exact(value, num, den, k);
        lemma_compound_step(value, num, den, k);
        lemma_pow_positive(den, k);
        let c = compound(value, num, den, k);
        let s = rounding_slack(num, den, k);
        let dk = pow(den, k);
        let nk = pow(num, k);
        let c1 = c * num / den;
        let s1 = s * num / den + 2;
        lemma_fundamental_div_mod(c * num, den);
        lemma_fundamental_div_mod(s * num, den);
        assert(c * num == den * c1 + (c * num) % den);
        assert(s * num == den * (s1 - 2) + (s * num) % den);
        assert((c * num) % den < den && (s * num) % den < den) by (nonlinear_arith)
            requires
                den > 0,
        ;
        assert((c + s) * num == c * num + s * num) by (nonlinear_arith);
        assert(den * (c1 + s1) == den * c1 + den * (s1 - 2) + 2 * den) by (nonlinear_arith);
        assert(s1 >= 0) by (nonlinear_arith)
            requires
                s1 == s * num / den + 2,
                s >= 0,
                num >= 0,
                den > 0,
        ;
        assert(c1 * (den * dk) <= value * (num * nk)) by (nonlinear_arith)
            requires
                c * dk <= value * nk,
                den * c1 <= c * num,
                num >= 0,
                dk > 0,
        ;
        assert(value * (num * nk) <= (c1 + s1) * (den * dk)) by (nonlinear_arith)
            requires
                value * nk <= (c + s) * dk,
                (c + s) * num <= den * (c1 + s1),
                num >= 0,
                dk > 0,
        ;
    }
}

/// `value` after `years` steps of `num / den`, where it is at most `limit`.
pub fn compound_within(value: u128, num: u64, den: u64, years: u64, limit: u128) -> (result:
    Option<u128>)
    requires
        den > 0,
        value <= limit,
        limit * num <= u128::MAX,
    ensures
        match result {
            Some(r) => r == compound(value as int, num as int, den as int, years as nat) && r
                <= limit,
            None => compound(value as int, num as int, den as int, years as nat) > limit,
        },
{
    let ghost v = value as int;
    let ghost n = num as int;
    let ghost d = den as int;
    let mut current: u128 = value;
    let mut passed: u64 = 0;
    while passed < years
        invariant
            passed <= years,
            den > 0,
            v == value,
            n == num,
            d == den,
            limit * num <= u128::MAX,
            current <= limit,
            current == compound(v, n, d, passed as nat),
        decreases years - passed,
    {
        assert(current * num <= limit * num) by (nonlinear_arith)
            requires
                current <= limit,
        ;
        let next: u128 = current * (num as u128) / (den as u128);
        assert(next == compound(v, n, d, (passed + 1) as nat));
        if next == current {
            proof {
                lemma_compound_settles(v, n, d, passed as nat, years as nat);
            }
            return Some(current);
        }
        if next > limit {
            proof {
                assert(n > d) by (nonlinear_arith)
                    requires
                        current * n / d > current,
                        current >= 0,
                        n >= 0,
                        d > 0,
                ;
                lemma_compound_monotone(v, n, d, (passed + 1) as nat, years as nat);
            }
            return None;
        }
        current = next;
        passed += 1;
    }
    Some(current)
}

/// Nothing stays nothing, and a factor of nothing leaves nothing after the
/// first step.
pub proof fn lemma_compound_of_nothing(value: int, num: int, den: int, years: nat)
    requires
        den > 0,
    ensures
        compound(0, num, den, years) == 0,
        years > 0 ==> compound(value, 0, den, years) == 0,
    decreases years,
{
    if years > 0 {
        lemma_compound_of_nothing(value, num, den, (years - 1) as nat);
        let c = compound(value, 0, den, (years - 1) as nat);
        assert(0 * num / den == 0 && c * 0 / den == 0) by (nonlinear_arith)
            requires
                den > 0,
        ;
    }
}

/// The grown value is nothing only where it is exactly nothing: where the
/// value is nothing, or a year at a factor of nothing has passed. So of a
/// target of nothing, a value above nothing that grows at a factor above
/// nothing is infinitely much, however small rounding has made it, and a
/// value of nothing is an undefined part.
pub proof fn lemma_grown_is_nothing_only_exactly(value: int, rate: int, years: int)
    requires
        value >= 0,
    ensures
        grown(value, rate, years) == Grown::Exact(0) <==> (value == 0 && !(years < 0
            && growth_factor(rate) == 0)) || (growth_factor(rate) == 0 && years > 0),
        value > 0 && growth_factor(rate) > 0 ==> percent_of_target(grown(value, rate, years), 0)
            == Ratio::Infinite,
        value == 0 ==> percent_of_target(grown(value, rate, years), 0) == Ratio::Undefined,
{
    let factor = if growth_factor(rate) < 0 {
        -growth_factor(rate)
    } else {
        growth_factor(rate)
    };
    if years >= 0 {
        lemma_compound_step(value, factor, hundred_percent(), years as nat);
        lemma_compound_of_nothing(value, factor, hundred_percent(), years as nat);
    } else if factor != 0 {
        lemma_compound_step(value, hundred_percent(), factor, (-years) as nat);
        lemma_compound_of_nothing(value, hundred_percent(), factor, (-years) as nat);
    }
}

/// A value that growth has led to, as computed.
#[derive(Clone, Copy, Debug, PartialEq, Eq, Structural)]
pub enum Projected {
    /// In hundred-millionths, between `-MAX_PROJECTED` and `MAX_PROJECTED`.
    Value(i128),
    /// More than `MAX_PROJECTED`.
    AboveLimit,
    /// Less than `-MAX_PROJECTED`.
    BelowLimit,
    /// Something divided by nothing.
    Infinite,
    /// Nothing divided by nothing.
    Undefined,
}

impl View for Projected {
    type V = Grown;

    open spec fn view(&self) -> Grown {
        match self {
            Projected::Value(v) => Grown::Exact(*v as int),
            Projected::AboveLimit => Grown::AboveLimit,
            Projected::BelowLimit => Grown::BelowLimit,
            Projected::Infinite => Grown::Infinite,
            Projected::Undefined => Grown::Undefined,
        }
    }
}

/// A percentage that may not exist.
#[derive(Clone, Copy, Debug, PartialEq, Eq, Structural)]
pub enum Progress {
    /// In ten-thousandths of a percent.
    Percent(i128),
    /// The grown value is above the limit, the target is not nothing.
    AboveLimit,
    /// The grown value is below the limit, the target is not nothing.
    BelowLimit,
    /// A grown value above nothing, of a target of nothing.
    Infinite,
    /// A grown value below nothing, of a target of nothing.
    NegativeInfinite,
    /// A grown value of nothing, of a target of nothing.
    Undefined,
}

impl View for Progress {
    type V = Ratio;

    open spec fn view(&self) -> Ratio {
        match self {
            Progress::Percent(p) => Ratio::Percent(*p as int),
            Progress::AboveLimit => Ratio::AboveLimit,
            Progress::BelowLimit => Ratio::BelowLimit,
            Progress::Infinite => Ratio::Infinite,
            Progress::NegativeInfinite => Ratio::NegativeInfinite,
            Progress::Undefined => Ratio::Undefined,
        }
    }
}

/// `value` after `years` years of growth at `target_growth_rate`.
pub fn grow(value: u128, target_growth_rate: i64, years: i64) -> (result: Projected)
    requires
        value <= MAX_PROJECTED,
        -MAX_PERCENT <= target_growth_rate <= MAX_PERCENT,
    ensures
        result@ == grown(value as int, target_growth_rate as int, years as int),
        result matches Projected::Value(g) ==> -MAX_PROJECTED <= g <= MAX_PROJECTED,
{
    let signed_factor: i64 = HUNDRED_PERCENT as i64 + target_growth_rate;
    let factor: u64 = if signed_factor < 0 {
        (-signed_factor) as u64
    } else {
        signed_factor as u64
    };
    let span: u64 = if years >= 0 {
        years as u64
    } else if years == i64::MIN {
        9_223_372_036_854_775_808
    } else {
        (-years) as u64
    };
    if years < 0 && factor == 0 {
        return if value > 0 {
            Projected::Infinite
        } else {
            Projected::Undefined
        };
    }
    assert(MAX_PROJECTED * factor <= u128::MAX && MAX_PROJECTED * HUNDRED_PERCENT <= u128::MAX)
        by (nonlinear_arith)
        requires
            factor <= HUNDRED_PERCENT + MAX_PERCENT,
    ;
    let rounded = if years >= 0 {
        compound_within(value, factor, HUNDRED_PERCENT, span, MAX_PROJECTED)
    } else {
        compound_within(value, HUNDRED_PERCENT, factor, span, MAX_PROJECTED)
    };
    let negative = signed_factor < 0 && span % 2 == 1;
    assert(negative == turns_negative(target_growth_rate as int, years as int));
    match rounded {
        Some(size) => {
            let kept: u128 = if size == 0 && value > 0 && (years <= 0 || factor != 0) {
                1
            } else {
                size
            };
            if negative {
                Projected::Value(-(kept as i128))
            } else {
                Projected::Value(kept as i128)
            }
        },
        None => {
            if negative {
                Projected::BelowLimit
            } else {
                Projected::AboveLimit
            }
        },
    }
}

/// `value` in ten-thousandths of a percent of `total`, at least one where
/// the value is above nothing.
fn portion_of(value: u128, total: u128) -> (part: u128)
    requires
        value <= MAX_PROJECTED,
        total > 0,
    ensures
        part == portion(value as int, total as int),
        part <= MAX_PROJECTED * HUNDRED_PERCENT,
{
    assert(value * HUNDRED_PERCENT <= MAX_PROJECTED * HUNDRED_PERCENT) by (nonlinear_arith)
        requires
            value <= MAX_PROJECTED,
    ;
    let scaled: u128 = value * (HUNDRED_PERCENT as u128);
    let rounded: u128 = scaled / total;
    assert(rounded <= scaled) by (nonlinear_arith)
        requires
            rounded == scaled / total,
            total > 0,
            scaled >= 0,
    ;
    if rounded == 0 && value > 0 {
        1
    } else {
        rounded
    }
}

/// The grown value in percent of the target.
pub fn progress_toward(grown: Projected, target: u128) -> (progress: Progress)
    requires
        grown matches Projected::Value(g) ==> -MAX_PROJECTED <= g <= MAX_PROJECTED,
    ensures
        progress@ == percent_of_target(grown@, target as int),
{
    match grown {
        Projected::Value(g) => {
            if target != 0 {
                if g < 0 {
                    Progress::Percent(-(portion_of((-g) as u128, target) as i128))
                } else {
                    Progress::Percent(portion_of(g as u128, target) as i128)
                }
            } else if g > 0 {
                Progress::Infinite
            } else if g < 0 {
                Progress::NegativeInfinite
            } else {
                Progress::Undefined
            }
        },
        Projected::AboveLimit => {
            if target != 0 {
                Progress::AboveLimit
            } else {
                Progress::Infinite
            }
        },
        Projected::BelowLimit => {
            if target != 0 {
                Progress::BelowLimit
            } else {
                Progress::NegativeInfinite
            }
        },
        Projected::Infinite => Progress::Infinite,
        Projected::Undefined => Progress::Undefined,
    }
}

/// The retirement projection of a snapshot.
pub struct Outlook {
    /// Yearly withdrawal in retirement, in percent of the portfolio.
    pub rule: int,
    /// Age at which retirement starts.
    pub retirement_age: int,
    /// The portfolio that retirement needs, as a value.
    pub target: int,
    /// What the portfolio is worth with the contribution, as a value.
    pub new_value: int,
    /// Years until retirement; negative where it has begun.
    pub years: int,
    /// `new_value` after `years` years of growth.
    pub grown: Grown,
    /// `grown` in percent of `target`.
    pub progress: Ratio,
}

/// The projection for a snapshot.
pub open spec fn outlook_for(s: Snapshot) -> Outlook {
    let new_value = total_value(s.holdings, s.exchange_rate) + s.contribution * scale();
    let years = s.target_retirement_age - s.current_age;
    let target = target_portfolio_value(s.annual_expenses);
    let grown = grown(new_value, s.growth_rate, years);
    Outlook {
        rule: RETIREMENT_RULE as int,
        retirement_age: s.target_retirement_age,
        target,
        new_value,
        years,
        grown,
        progress: percent_of_target(grown, target),
    }
}

/// The retirement projection, as computed.
pub struct RetirementOutlook {
    /// Yearly withdrawal in retirement, in percent of the portfolio.
    pub retirement_rule: u64,
    /// The portfolio that retirement needs, in hundred-millionths.
    pub target_retirement_portfolio_value: u128,
    /// What the portfolio is worth with the contribution, in hundred-millionths.
    pub new_value: u128,
    /// Years until retirement; negative where it has begun.
    pub years_to_pass: i64,
    /// `new_value` after `years_to_pass` years of growth.
    pub fully_grown_portfolio: Projected,
    /// `fully_grown_portfolio` in percent of the target.
    pub percentage_of_retirement_value: Progress,
    /// Age at which retirement starts.
    pub target_retirement_age: i32,
}

impl View for RetirementOutlook {
    type V = Outlook;

    open spec fn view(&self) -> Outlook {
        Outlook {
            rule: self.retirement_rule as int,
            retirement_age: self.target_retirement_age as int,
            target: self.target_retirement_portfolio_value as int,
            new_value: self.new_value as int,
            years: self.years_to_pass as int,
            grown: self.fully_grown_portfolio@,
            progress: self.percentage_of_retirement_value@,
        }
    }
}

/// Projects the portfolio to the retirement age and holds it against what
/// retirement needs.
pub fn how_close_to_retirement(data: &Data) -> (outlook: RetirementOutlook)
    requires
        all_within_limits(data@.holdings),
        data@.exchange_rate <= MAX_RATE,
        -MAX_PERCENT <= data@.growth_rate <= MAX_PERCENT,
    ensures
        outlook@ == outlook_for(data@),
{
    let total = calc_portfolio_val(&data.stocks, data.usd_to_cad_exchange_rate);
    let cash: u128 = data.expected_contribution as u128;
    let expenses: u128 = data.annual_expenses as u128;
    assert(MAX_HOLDINGS * max_value() + u64::MAX * SCALE <= MAX_PROJECTED);
    let new_value: u128 = total + cash * (SCALE as u128);
    let years_to_pass: i64 = data.target_retirement_age as i64 - data.current_age as i64;
    let target: u128 = expenses * (SCALE as u128) * 100 / (RETIREMENT_RULE as u128);
    let fully_grown_portfolio = grow(new_value, data.target_growth_rate, years_to_pass);
    let percentage_of_retirement_value = progress_toward(fully_grown_portfolio, target);
    RetirementOutlook {
        retirement_rule: RETIREMENT_RULE,
        target_retirement_portfolio_value: target,
        new_value,
        years_to_pass,
        fully_grown_portfolio,
        percentage_of_retirement_value,
        target_retirement_age: data.target_retirement_age,
    }
}

} // verus!
