use vstd::prelude::*;
use vstd::string::StrSliceExecFns;
use crate::text::UNITS_PER_DOLLAR;

verus! {

/// Number of fraction digits that a unit resolves; further digits are dropped.
pub const FRACTION_DIGITS: usize = 10;

/// Why a decimal amount could not be read.
#[derive(Clone, Copy, Debug, PartialEq, Eq, Structural)]
pub enum AmountError {
    /// The text is not `digits`, `digits.digits`, `.digits` or `digits.`.
    Malformed,
    /// The amount does not fit in a `u64` count of units.
    OutOfRange,
}

pub open spec fn is_digit(c: char) -> bool {
    '0' <= c && c <= '9'
}

pub open spec fn digit_value(c: char) -> nat {
    (c as int - '0' as int) as nat
}

pub open spec fn all_digits(s: Seq<char>) -> bool {
    forall|i: int| 0 <= i < s.len() ==> is_digit(#[trigger] s[i])
}

/// The number that a string of decimal digits denotes.
pub open spec fn digits_value(s: Seq<char>) -> nat
    decreases s.len(),
{
    if s.len() == 0 {
        0
    } else {
        digits_value(s.drop_last()) * 10 + digit_value(s.last())
    }
}

/// Index of the first `.` in `s`, or its length when there is none.
pub open spec fn dot_index(s: Seq<char>) -> int
    decreases s.len(),
{
    if s.len() == 0 {
        0
    } else if s[0] == '.' {
        0
    } else {
        1 + dot_index(s.drop_first())
    }
}

/// The first `k` fraction digits `f` as a whole number, padded with zeros.
pub open spec fn scaled_fraction(f: Seq<char>, k: nat) -> nat
    decreases k,
{
    if k == 0 {
        0
    } else {
        scaled_fraction(f, (k - 1) as nat) * 10 + if k - 1 < f.len() {
            digit_value(f[k - 1])
        } else {
            0
        }
    }
}

pub open spec fn integer_part(s: Seq<char>) -> Seq<char> {
    s.take(dot_index(s))
}

pub open spec fn fraction_part(s: Seq<char>) -> Seq<char> {
    if dot_index(s) < s.len() {
        s.skip(dot_index(s) + 1)
    } else {
        Seq::empty()
    }
}

/// The amount, in units, that a decimal text denotes, if it is well formed.
pub open spec fn amount_value(s: Seq<char>) -> Option<nat> {
    let ip = integer_part(s);
    let fp = fraction_part(s);
    if all_digits(ip) && all_digits(fp) && ip.len() + fp.len() > 0 {
        Some(
            digits_value(ip) * (UNITS_PER_DOLLAR as nat) + scaled_fraction(
                fp,
                FRACTION_DIGITS as nat,
            ),
        )
    } else {
        None
    }
}

proof fn lemma_dot_index(s: Seq<char>, d: int)
    requires
        0 <= d <= s.len(),
        forall|j: int| 0 <= j < d ==> s[j] != '.',
        d == s.len() || s[d] == '.',
    ensures
        dot_index(s) == d,
    decreases d,
{
    if d > 0 {
        lemma_dot_index(s.drop_first(), d - 1);
    }
}

proof fn lemma_digits_value_monotonic(s: Seq<char>, i: int, j: int)
    requires
        0 <= i <= j <= s.len(),
    ensures
        digits_value(s.take(i)) <= digits_value(s.take(j)),
    decreases j - i,
{
    if i < j {
        lemma_digits_value_monotonic(s, i, j - 1);
        assert(s.take(j).drop_last() =~= s.take(j - 1));
    }
}

proof fn lemma_scaled_fraction_bound(f: Seq<char>, k: nat)
    requires
        all_digits(f),
    ensures
        scaled_fraction(f, k) < pow10(k),
    decreases k,
{
    if k > 0 {
        lemma_scaled_fraction_bound(f, (k - 1) as nat);
        if k - 1 < f.len() {
            assert(is_digit(f[k - 1]));
        }
    }
}

pub open spec fn pow10(k: nat) -> nat
    decreases k,
{
    if k == 0 { 1 } else { 10 * pow10((k - 1) as nat) }
}

fn is_digit_char(c: char) -> (r: bool)
    ensures
        r == is_digit(c),
{
    '0' <= c && c <= '9'
}

/// Reads a non-negative decimal amount such as `12.3456` as a count of units
/// (ten-billionths); fraction digits past the tenth are dropped.
pub fn parse_amount(s: &str) -> (r: Result<u64, AmountError>)
    ensures
        r matches Ok(v) ==> amount_value(s@) == Some(v as nat),
        r == Err::<u64, AmountError>(AmountError::Malformed) <==> amount_value(s@) is None,
        r == Err::<u64, AmountError>(AmountError::OutOfRange) <==> (amount_value(s@) is Some
            && amount_value(s@)->Some_0 > u64::MAX),
{
    let n = s.unicode_len();
    let mut d: usize = 0;
    while d < n && s.get_char(d) != '.'
        invariant
            n == s@.len(),
            d <= n,
            forall|j: int| 0 <= j < d ==> s@[j] != '.',
        decreases n - d,
    {
        d = d + 1;
    }
    proof {
        lemma_dot_index(s@, d as int);
    }
    let ghost ip = integer_part(s@);
    let ghost fp = fraction_part(s@);
    let frac_start: usize = if d < n { d + 1 } else { n };
    assert(fp =~= s@.subrange(frac_start as int, n as int));
    assert(ip =~= s@.subrange(0, d as int));
    let mut i: usize = 0;
    while i < n
        invariant
            n == s@.len(),
            d <= n,
            frac_start == (if d < n { (d + 1) as usize } else { n }),
            ip =~= s@.subrange(0, d as int),
            fp =~= s@.subrange(frac_start as int, n as int),
            ip == integer_part(s@),
            fp == fraction_part(s@),
            forall|j: int| 0 <= j < i && j != d ==> is_digit(#[trigger] s@[j]),
        decreases n - i,
    {
        if i != d && !is_digit_char(s.get_char(i)) {
            proof {
                if i < d {
                    assert(ip[i as int] == s@[i as int]);
                    assert(!is_digit(ip[i as int]));
                } else {
                    assert(fp[i - frac_start] == s@[i as int]);
                    assert(!is_digit(fp[i - frac_start]));
                }
            }
            return Err(AmountError::Malformed);
        }
        i = i + 1;
    }
    assert(all_digits(ip)) by {
        assert forall|j: int| 0 <= j < ip.len() implies is_digit(#[trigger] ip[j]) by {
            assert(ip[j] == s@[j]);
        }
    }
    assert(all_digits(fp)) by {
        assert forall|j: int| 0 <= j < fp.len() implies is_digit(#[trigger] fp[j]) by {
            assert(fp[j] == s@[j + frac_start]);
        }
    }
    if d + (n - frac_start) == 0 {
        return Err(AmountError::Malformed);
    }
    let mut whole: u128 = 0;
    let mut k: usize = 0;
    while k < d
        invariant
            n == s@.len(),
            d <= n,
            k <= d,
            ip =~= s@.subrange(0, d as int),
            ip == integer_part(s@),
            fp == fraction_part(s@),
            all_digits(ip),
            all_digits(fp),
            ip.len() + fp.len() > 0,
            whole == digits_value(ip.take(k as int)),
            whole <= u64::MAX,
        decreases d - k,
    {
        let c = s.get_char(k);
        assert(c == ip[k as int]);
        assert(ip.take(k + 1).drop_last() =~= ip.take(k as int));
        whole = whole * 10 + (c as u32 - '0' as u32) as u128;
        k = k + 1;
        if whole > u64::MAX as u128 {
            proof {
                lemma_digits_value_monotonic(ip, k as int, d as int);
                assert(ip.take(d as int) =~= ip);
                lemma_scaled_fraction_bound(fp, FRACTION_DIGITS as nat);
                assert(digits_value(ip) * (UNITS_PER_DOLLAR as nat) >= digits_value(ip)) by (
                nonlinear_arith);
            }
            return Err(AmountError::OutOfRange);
        }
    }
    assert(ip.take(d as int) =~= ip);
    let flen: usize = n - frac_start;
    let mut frac: u64 = 0;
    let mut m: usize = 0;
    while m < FRACTION_DIGITS
        invariant
            n == s@.len(),
            flen == fp.len(),
            frac_start + flen == n,
            fp =~= s@.subrange(frac_start as int, n as int),
            ip == integer_part(s@),
            fp == fraction_part(s@),
            all_digits(ip),
            all_digits(fp),
            ip.len() + fp.len() > 0,
            whole == digits_value(ip),
            whole <= u64::MAX,
            m <= FRACTION_DIGITS,
            frac == scaled_fraction(fp, m as nat),
        decreases FRACTION_DIGITS - m,
    {
        proof {
            lemma_scaled_fraction_bound(fp, m as nat);
            reveal_with_fuel(pow10, 11);
        }
        let digit: u64 = if m < flen {
            let c = s.get_char(frac_start + m);
            assert(c == fp[m as int]);
            (c as u32 - '0' as u32) as u64
        } else {
            0
        };
        frac = frac * 10 + digit;
        m = m + 1;
    }
    proof {
        lemma_scaled_fraction_bound(fp, FRACTION_DIGITS as nat);
        reveal_with_fuel(pow10, 11);
    }
    let total: u128 = whole * (UNITS_PER_DOLLAR as u128) + frac as u128;
    if total > u64::MAX as u128 {
        Err(AmountError::OutOfRange)
    } else {
        Ok(total as u64)
    }
}

} // verus!
