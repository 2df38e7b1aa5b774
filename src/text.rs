use vstd::prelude::*;
use crate::calendar::Date;

verus! {

/// Smallest money unit: amounts are held as whole ten-billionths of a dollar.
pub const UNITS_PER_DOLLAR: u64 = 10_000_000_000;

/// Units in one cent.
pub const UNITS_PER_CENT: u64 = 100_000_000;

pub open spec fn digit_char(d: nat) -> char {
    if d == 0 { '0' }
    else if d == 1 { '1' }
    else if d == 2 { '2' }
    else if d == 3 { '3' }
    else if d == 4 { '4' }
    else if d == 5 { '5' }
    else if d == 6 { '6' }
    else if d == 7 { '7' }
    else if d == 8 { '8' }
    else { '9' }
}

/// Decimal notation of `n`, without leading zeros.
pub open spec fn decimal_digits(n: nat) -> Seq<char>
    decreases n,
{
    if n < 10 {
        seq![digit_char(n)]
    } else {
        decimal_digits(n / 10).push(digit_char(n % 10))
    }
}

pub open spec fn zeros(k: nat) -> Seq<char> {
    Seq::new(k, |i: int| '0')
}

/// Decimal notation of `n`, padded on the left with zeros to `width` characters.
pub open spec fn padded_digits(n: nat, width: nat) -> Seq<char> {
    let d = decimal_digits(n);
    if d.len() >= width {
        d
    } else {
        zeros((width - d.len()) as nat) + d
    }
}

/// A date written `YYYY-MM-DD`.
pub open spec fn date_text(d: Date) -> Seq<char> {
    padded_digits(d.year as nat, 4) + seq!['-'] + padded_digits(d.month as nat, 2) + seq!['-']
        + padded_digits(d.day as nat, 2)
}

/// An amount of units rounded to the nearest cent, halves rounding up.
pub open spec fn rounded_cents(units: nat) -> nat {
    units / (UNITS_PER_CENT as nat) + if units % (UNITS_PER_CENT as nat) >= (UNITS_PER_CENT as nat)
        / 2 {
        1nat
    } else {
        0nat
    }
}

/// An amount of units written in dollars with exactly two decimals (`810.00`).
pub open spec fn money_text(units: nat) -> Seq<char> {
    let cents = rounded_cents(units);
    decimal_digits(cents / 100) + seq!['.'] + padded_digits(cents % 100, 2)
}

/// Relies on String::push: appends one character.
#[verifier::external_body]
pub(crate) fn push_char(s: &mut String, c: char)
    ensures
        final(s)@ == old(s)@.push(c),
{
    s.push(c);
}

fn digit_to_char(d: u8) -> (c: char)
    requires
        d < 10,
    ensures
        c == digit_char(d as nat),
{
    match d {
        0 => '0',
        1 => '1',
        2 => '2',
        3 => '3',
        4 => '4',
        5 => '5',
        6 => '6',
        7 => '7',
        8 => '8',
        _ => '9',
    }
}

/// Appends the decimal notation of `n`.
pub fn push_decimal(s: &mut String, n: u128)
    ensures
        final(s)@ == old(s)@ + decimal_digits(n as nat),
    decreases n,
{
    if n >= 10 {
        push_decimal(s, n / 10);
    }
    let d = (n % 10) as u8;
    push_char(s, digit_to_char(d));
    proof {
        if n >= 10 {
            assert(final(s)@ =~= old(s)@ + decimal_digits(n as nat));
        } else {
            assert(final(s)@ =~= old(s)@ + decimal_digits(n as nat));
        }
    }
}

/// Number of decimal digits of a number below ten thousand.
fn digit_count(n: u32) -> (r: u32)
    requires
        n < 10000,
    ensures
        r == decimal_digits(n as nat).len(),
        1 <= r <= 4,
{
    reveal_with_fuel(decimal_digits, 4);
    if n < 10 {
        1
    } else if n < 100 {
        2
    } else if n < 1000 {
        3
    } else {
        4
    }
}

/// Appends `n` padded with zeros on the left to `width` characters.
pub fn push_padded(s: &mut String, n: u32, width: u32)
    requires
        n < 10000,
    ensures
        final(s)@ == old(s)@ + padded_digits(n as nat, width as nat),
{
    let count = digit_count(n);
    let mut k: u32 = count;
    while k < width
        invariant
            count <= k,
            count < width ==> k <= width,
            count >= width ==> k == count,
            s@ == old(s)@ + zeros((k - count) as nat),
        decreases width - k,
    {
        push_char(s, '0');
        k = k + 1;
        assert(s@ =~= old(s)@ + zeros((k - count) as nat));
    }
    push_decimal(s, n as u128);
    proof {
        if count >= width {
            assert(zeros(0) =~= Seq::<char>::empty());
            assert(s@ =~= old(s)@ + padded_digits(n as nat, width as nat));
        } else {
            assert(k == width);
            assert(s@ =~= old(s)@ + padded_digits(n as nat, width as nat));
        }
    }
}

/// Appends `d` written `YYYY-MM-DD`.
pub fn push_date(s: &mut String, d: Date)
    requires
        d.wf(),
    ensures
        final(s)@ == old(s)@ + date_text(d),
{
    push_padded(s, d.year as u32, 4);
    push_char(s, '-');
    push_padded(s, d.month, 2);
    push_char(s, '-');
    push_padded(s, d.day, 2);
    assert(s@ =~= old(s)@ + date_text(d));
}

/// `d` written `YYYY-MM-DD`.
pub fn format_date(d: Date) -> (r: String)
    requires
        d.wf(),
    ensures
        r@ == date_text(d),
{
    let mut s = String::new();
    push_date(&mut s, d);
    s
}

/// Appends an amount of units in dollars with two decimals.
pub fn push_money(s: &mut String, units: u128)
    ensures
        final(s)@ == old(s)@ + money_text(units as nat),
{
    let whole = units / (UNITS_PER_CENT as u128);
    let rest = units % (UNITS_PER_CENT as u128);
    assert(whole < 0xffff_ffff_ffff_ffff_ffff_ffff_ffff_ffffu128) by (nonlinear_arith)
        requires
            whole == units / 100_000_000u128,
    ;
    let cents: u128 = if rest >= (UNITS_PER_CENT as u128) / 2 { whole + 1 } else { whole };
    assert(cents == rounded_cents(units as nat));
    push_decimal(s, cents / 100);
    push_char(s, '.');
    push_padded(s, (cents % 100) as u32, 2);
    assert(s@ =~= old(s)@ + money_text(units as nat));
}

} // verus!
