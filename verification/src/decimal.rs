//! The calls into `rust_decimal`. Everything here is taken on trust: each
//! function hands plain integers to the decimal library and hands plain
//! integers back, and its contract records what the library is relied on for.

use core::str::FromStr;
use rust_decimal::Decimal;
use vstd::prelude::*;

use crate::amount::{in_range, pow10, units_of};

verus! {

/// `rust_decimal::Error`, carried through unread.
#[verifier::external_type_specification]
#[verifier::external_body]
pub struct ExDecimalError(rust_decimal::Error);

/// What `Decimal::checked_add` returns for the decimals
/// `a_mantissa / 10^a_scale` and `b_mantissa / 10^b_scale`: the mantissa and
/// scale of its result, or `None` where it reports an overflow.
pub uninterp spec fn decimal_sum(a_mantissa: int, a_scale: int, b_mantissa: int, b_scale: int)
    -> Option<(int, int)>;

/// What `Decimal::checked_sub` returns for the decimals
/// `a_mantissa / 10^a_scale` and `b_mantissa / 10^b_scale`: the mantissa and
/// scale of its result, or `None` where it reports an overflow.
pub uninterp spec fn decimal_difference(
    a_mantissa: int,
    a_scale: int,
    b_mantissa: int,
    b_scale: int,
) -> Option<(int, int)>;

/// What `<Decimal as FromStr>::from_str` makes of a text: the mantissa and
/// scale of the decimal it reads, or `None` where it refuses the text.
pub uninterp spec fn decimal_of_text(text: Seq<char>) -> Option<(int, int)>;

/// A pair of machine integers as a pair of mathematical ones.
pub open spec fn widen(raw: Option<(i128, u32)>) -> Option<(int, int)> {
    match raw {
        Some((m, s)) => Some((m as int, s as int)),
        None => None,
    }
}

/// `n / d` rounded to the nearest integer, a tie going to the even neighbour.
/// `d` is positive. Rounding the magnitude and restoring the sign gives the
/// same integer.
pub open spec fn round_half_even(n: int, d: int) -> int {
    let q = n / d;
    let r = n % d;
    if 2 * r < d || (2 * r == d && q % 2 == 0) {
        q
    } else {
        q + 1
    }
}

/// Calls `Decimal::checked_add`. The contract says only that the result is
/// the one named by [`decimal_sum`]: the same operands always give the same
/// result. Nothing is claimed about the result's value.
#[verifier::external_body]
pub(crate) fn decimal_checked_add(a_mantissa: i128, a_scale: u32, b_mantissa: i128, b_scale: u32)
    -> (r: Option<(i128, u32)>)
    requires
        in_range(a_mantissa as int, a_scale as int),
        in_range(b_mantissa as int, b_scale as int),
    ensures
        widen(r) == decimal_sum(a_mantissa as int, a_scale as int, b_mantissa as int, b_scale as int),
{
    let a = Decimal::from_i128_with_scale(a_mantissa, a_scale);
    let b = Decimal::from_i128_with_scale(b_mantissa, b_scale);
    match a.checked_add(b) {
        Some(d) => Some((d.mantissa(), d.scale())),
        None => None,
    }
}

/// Calls `Decimal::checked_sub`. The contract says only that the result is
/// the one named by [`decimal_difference`]. Nothing is claimed about the
/// result's value.
#[verifier::external_body]
pub(crate) fn decimal_checked_sub(a_mantissa: i128, a_scale: u32, b_mantissa: i128, b_scale: u32)
    -> (r: Option<(i128, u32)>)
    requires
        in_range(a_mantissa as int, a_scale as int),
        in_range(b_mantissa as int, b_scale as int),
    ensures
        widen(r) == decimal_difference(
            a_mantissa as int,
            a_scale as int,
            b_mantissa as int,
            b_scale as int,
        ),
{
    let a = Decimal::from_i128_with_scale(a_mantissa, a_scale);
    let b = Decimal::from_i128_with_scale(b_mantissa, b_scale);
    match a.checked_sub(b) {
        Some(d) => Some((d.mantissa(), d.scale())),
        None => None,
    }
}

/// Compares two decimals with `Decimal`'s `>`. The contract claims that the
/// decimal library orders decimals by their numeric value, whatever their
/// scales.
#[verifier::external_body]
pub(crate) fn decimal_greater(a_mantissa: i128, a_scale: u32, b_mantissa: i128, b_scale: u32)
    -> (r: bool)
    requires
        in_range(a_mantissa as int, a_scale as int),
        in_range(b_mantissa as int, b_scale as int),
    ensures
        r == (units_of(a_mantissa as int, a_scale as int) > units_of(
            b_mantissa as int,
            b_scale as int,
        )),
{
    let a = Decimal::from_i128_with_scale(a_mantissa, a_scale);
    let b = Decimal::from_i128_with_scale(b_mantissa, b_scale);
    a > b
}

/// Calls `Decimal::round_dp`. The contract claims what that function's source
/// shows: a decimal with no more than `places` fractional digits comes back
/// as it is; any other comes back with exactly `places` fractional digits,
/// its mantissa divided by the power of ten that drops the surplus digits
/// and rounded half to even.
#[verifier::external_body]
pub(crate) fn decimal_round_dp(mantissa: i128, scale: u32, places: u32) -> (r: (i128, u32))
    requires
        in_range(mantissa as int, scale as int),
    ensures
        scale <= places ==> r == (mantissa, scale),
        scale > places ==> r.1 == places && r.0 == round_half_even(
            mantissa as int,
            pow10((scale - places) as nat),
        ),
{
    let d = Decimal::from_i128_with_scale(mantissa, scale).round_dp(places);
    (d.mantissa(), d.scale())
}

/// Calls `<Decimal as FromStr>::from_str`. The contract says only that the
/// text is accepted exactly when [`decimal_of_text`] names a decimal for it,
/// and that the decimal read is the one named. Nothing is claimed about
/// which texts are accepted, nor about the error.
#[verifier::external_body]
pub(crate) fn decimal_from_str(text: &str) -> (r: Result<(i128, u32), rust_decimal::Error>)
    ensures
        match r {
            Ok((m, s)) => decimal_of_text(text@) == Some((m as int, s as int)),
            Err(_) => decimal_of_text(text@) is None,
        },
{
    match Decimal::from_str(text) {
        Ok(d) => Ok((d.mantissa(), d.scale())),
        Err(e) => Err(e),
    }
}

} // verus!
