//! Decimal text of whole and fixed-point numbers.

use vstd::prelude::*;

verus! {

/// `String::push` appends the character to the end of the string.
pub assume_specification[ String::push ](s: &mut String, ch: char)
    ensures
        final(s)@ == old(s)@.push(ch),
;

/// The character of a decimal digit.
pub open spec fn digit(d: int) -> char {
    if d == 0 {
        '0'
    } else if d == 1 {
        '1'
    } else if d == 2 {
        '2'
    } else if d == 3 {
        '3'
    } else if d == 4 {
        '4'
    } else if d == 5 {
        '5'
    } else if d == 6 {
        '6'
    } else if d == 7 {
        '7'
    } else if d == 8 {
        '8'
    } else {
        '9'
    }
}

/// The decimal digits of a number, most significant first, without leading
/// zeros; zero is the one digit `0`.
pub open spec fn digits_of(n: nat) -> Seq<char>
    decreases n,
{
    if n < 10 {
        seq![digit(n as int)]
    } else {
        digits_of(n / 10).push(digit((n % 10) as int))
    }
}

/// The character of a decimal digit.
pub fn digit_char(d: u8) -> (c: char)
    requires
        d < 10,
    ensures
        c == digit(d as int),
{
    if d == 0 {
        '0'
    } else if d == 1 {
        '1'
    } else if d == 2 {
        '2'
    } else if d == 3 {
        '3'
    } else if d == 4 {
        '4'
    } else if d == 5 {
        '5'
    } else if d == 6 {
        '6'
    } else if d == 7 {
        '7'
    } else if d == 8 {
        '8'
    } else {
        '9'
    }
}

/// Appends the decimal digits of `n`.
pub fn push_number(out: &mut String, n: u128)
    ensures
        final(out)@ == old(out)@ + digits_of(n as nat),
{
    let ghost before = out@;
    let mut rest: u128 = n;
    let mut low: Vec<char> = Vec::new();
    while rest >= 10
        invariant
            digits_of(n as nat) == digits_of(rest as nat) + low@.reverse(),
        decreases rest,
    {
        let c = digit_char((rest % 10) as u8);
        proof {
            let high = digits_of((rest / 10) as nat);
            assert(high.push(c) + low@.reverse() =~= high + low@.push(c).reverse());
        }
        low.push(c);
        rest = rest / 10;
    }
    out.push(digit_char(rest as u8));
    let mut i: usize = low.len();
    while i > 0
        invariant
            i <= low.len(),
            rest < 10,
            digits_of(n as nat) == digits_of(rest as nat) + low@.reverse(),
            out@ == before + digits_of(rest as nat) + low@.reverse().take(low.len() - i),
        decreases i,
    {
        i -= 1;
        proof {
            let r = low@.reverse();
            assert(r.take(low.len() - i) =~= r.take(low.len() - i - 1).push(low[i as int]));
        }
        out.push(low[i]);
    }
    proof {
        let r = low@.reverse();
        assert(r.take(low.len() as int) =~= r);
        assert(before + digits_of(rest as nat) + r =~= before + (digits_of(rest as nat) + r));
    }
}

/// The digits of a whole number with its sign: a `-` in front of the digits
/// of a negative one.
pub open spec fn signed_digits(n: int) -> Seq<char> {
    if n < 0 {
        seq!['-'] + digits_of((-n) as nat)
    } else {
        digits_of(n as nat)
    }
}

/// Appends a whole number with its sign.
pub fn push_signed(out: &mut String, n: i64)
    ensures
        final(out)@ == old(out)@ + signed_digits(n as int),
{
    let ghost before = out@;
    if n < 0 {
        out.push('-');
        let size: u128 = if n == i64::MIN {
            9_223_372_036_854_775_808
        } else {
            (-n) as u128
        };
        push_number(out, size);
        assert(out@ =~= before + signed_digits(n as int));
    } else {
        push_number(out, n as u128);
    }
}

/// Ten to the power of `k`.
pub open spec fn power_of_ten(k: nat) -> nat
    decreases k,
{
    if k == 0 {
        1
    } else {
        10 * power_of_ten((k - 1) as nat)
    }
}

/// A power of ten is at least one.
pub proof fn lemma_power_of_ten_positive(k: nat)
    ensures
        power_of_ten(k) >= 1,
    decreases k,
{
    if k > 0 {
        lemma_power_of_ten_positive((k - 1) as nat);
    }
}

/// The digits behind the decimal point of `f / 10^places`, without trailing
/// zeros: none where `f` is zero.
pub open spec fn fraction_digits(f: nat, places: nat) -> Seq<char>
    decreases places,
{
    if f == 0 || places == 0 {
        Seq::empty()
    } else {
        let unit = power_of_ten((places - 1) as nat);
        seq![digit((f / unit) as int)] + fraction_digits(f % unit, (places - 1) as nat)
    }
}

/// The decimal text of `n / 10^places`: the whole part, and behind a point
/// the fraction without trailing zeros, where there is one.
pub open spec fn decimal_text(n: nat, places: nat) -> Seq<char> {
    let unit = power_of_ten(places);
    if n % unit == 0 {
        digits_of(n / unit)
    } else {
        digits_of(n / unit) + seq!['.'] + fraction_digits(n % unit, places)
    }
}

/// Appends the digits behind the decimal point of `f / unit`.
fn push_fraction(out: &mut String, f: u128, places: u32, unit: u128)
    requires
        unit == power_of_ten(places as nat),
        f < unit,
    ensures
        final(out)@ == old(out)@ + fraction_digits(f as nat, places as nat),
{
    let ghost wanted = out@ + fraction_digits(f as nat, places as nat);
    let mut f: u128 = f;
    let mut places: u32 = places;
    let mut unit: u128 = unit;
    while f > 0
        invariant
            unit == power_of_ten(places as nat),
            f < unit,
            wanted == out@ + fraction_digits(f as nat, places as nat),
        decreases places,
    {
        assert(places > 0);
        let lower: u128 = unit / 10;
        proof {
            lemma_power_of_ten_positive((places - 1) as nat);
            assert(lower == power_of_ten((places - 1) as nat));
            assert(f / lower < 10) by (nonlinear_arith)
                requires
                    f < 10 * lower,
                    lower > 0,
            ;
        }
        let d: u128 = f / lower;
        let ghost shown = out@;
        let ghost rest = fraction_digits((f % lower) as nat, (places - 1) as nat);
        assert(fraction_digits(f as nat, places as nat) == seq![digit(d as int)] + rest);
        out.push(digit_char(d as u8));
        assert(shown + (seq![digit(d as int)] + rest) =~= shown.push(digit(d as int)) + rest);
        f = f % lower;
        unit = lower;
        places -= 1;
    }
    assert(out@ + Seq::<char>::empty() =~= out@);
}

/// Appends the decimal text of `n / unit`, where `unit` is ten to the power
/// of `places`.
pub fn push_decimal(out: &mut String, n: u128, places: u32, unit: u128)
    requires
        unit == power_of_ten(places as nat),
    ensures
        final(out)@ == old(out)@ + decimal_text(n as nat, places as nat),
{
    let ghost before = out@;
    proof {
        lemma_power_of_ten_positive(places as nat);
    }
    push_number(out, n / unit);
    let f: u128 = n % unit;
    if f != 0 {
        out.push('.');
        push_fraction(out, f, places, unit);
        assert(out@ =~= before + decimal_text(n as nat, places as nat));
    }
}

/// Appends an input amount: ten-thousandths, with up to four decimals.
pub fn push_input_amount(out: &mut String, n: u128)
    ensures
        final(out)@ == old(out)@ + decimal_text(n as nat, 4),
{
    proof {
        reveal_with_fuel(power_of_ten, 5);
    }
    push_decimal(out, n, 4, 10_000);
}

/// Appends a value: hundred-millionths, with up to eight decimals.
pub fn push_value(out: &mut String, n: u128)
    ensures
        final(out)@ == old(out)@ + decimal_text(n as nat, 8),
{
    proof {
        reveal_with_fuel(power_of_ten, 9);
    }
    push_decimal(out, n, 8, 100_000_000);
}

/// Appends a plan amount, with up to fourteen decimals.
pub fn push_plan_amount(out: &mut String, n: u128)
    ensures
        final(out)@ == old(out)@ + decimal_text(n as nat, 14),
{
    proof {
        reveal_with_fuel(power_of_ten, 15);
    }
    push_decimal(out, n, 14, 100_000_000_000_000);
}

/// The decimal text of `n / 10^places` with its sign: a `-` in front of the
/// text of a negative number.
pub open spec fn signed_decimal_text(n: int, places: nat) -> Seq<char> {
    if n < 0 {
        seq!['-'] + decimal_text((-n) as nat, places)
    } else {
        decimal_text(n as nat, places)
    }
}

/// Appends the decimal text of `n / unit` with its sign, where `unit` is ten
/// to the power of `places`.
pub fn push_signed_decimal(out: &mut String, n: i128, places: u32, unit: u128)
    requires
        unit == power_of_ten(places as nat),
    ensures
        final(out)@ == old(out)@ + signed_decimal_text(n as int, places as nat),
{
    let ghost before = out@;
    if n < 0 {
        out.push('-');
        let size: u128 = if n == i128::MIN {
            170_141_183_460_469_231_731_687_303_715_884_105_728
        } else {
            (-n) as u128
        };
        push_decimal(out, size, places, unit);
        assert(out@ =~= before + signed_decimal_text(n as int, places as nat));
    } else {
        push_decimal(out, n as u128, places, unit);
    }
}

/// Appends a percentage with its sign: ten-thousandths, with up to four
/// decimals.
pub fn push_signed_percent(out: &mut String, n: i128)
    ensures
        final(out)@ == old(out)@ + signed_decimal_text(n as int, 4),
{
    proof {
        reveal_with_fuel(power_of_ten, 5);
    }
    push_signed_decimal(out, n, 4, 10_000);
}

/// Appends a value with its sign: hundred-millionths, with up to eight
/// decimals.
pub fn push_signed_value(out: &mut String, n: i128)
    ensures
        final(out)@ == old(out)@ + signed_decimal_text(n as int, 8),
{
    proof {
        reveal_with_fuel(power_of_ten, 9);
    }
    push_signed_decimal(out, n, 8, 100_000_000);
}

} // verus!
