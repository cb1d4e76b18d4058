//! The arithmetic that this crate takes from `rust_decimal`, and what it
//! takes on trust about it.
//!
//! `rust_decimal` rounds a result that has more digits than its 96 bits
//! hold and reports one that is out of range. How it rounds takes pages to
//! say, so each operation gets a name for its result, which depends on the
//! operands alone, and the rest of the crate states its contracts over
//! those names. Beside the names stand the few cases in which the outside
//! source leaves no room for rounding: an operand that is zero, and a sum
//! or difference that fits as it is.

use crate::scalar::{Number, Scalar};
use vstd::prelude::*;

verus! {

/// What `Decimal::checked_add` makes of `a + b`: `None` where it reports an
/// overflow.
pub uninterp spec fn decimal_sum(a: Number, b: Number) -> Option<Number>;

/// What `Decimal::checked_sub` makes of `a - b`: `None` where it reports an
/// overflow.
pub uninterp spec fn decimal_difference(a: Number, b: Number) -> Option<Number>;

/// What `Decimal::checked_mul` makes of `a * b`: `None` where it reports an
/// overflow.
pub uninterp spec fn decimal_product(a: Number, b: Number) -> Option<Number>;

/// What `Decimal::checked_div` makes of `a / b`: `None` where it reports an
/// overflow or a division by zero.
pub uninterp spec fn decimal_quotient(a: Number, b: Number) -> Option<Number>;

/// What `MathematicalOps::checked_powd` makes of `base` to the power
/// `exponent`: `None` where it reports an overflow.
pub uninterp spec fn decimal_power(base: Number, exponent: Number) -> Option<Number>;

/// The base of the only powers that this crate takes.
pub open spec fn ten() -> Number {
    Number { mantissa: 10, scale: 0 }
}

/// Calls `rust_decimal::Decimal::checked_add`. Claims three things.
/// The result is the same for the same operands. Where one operand is zero
/// the call succeeds and gives a number of the other operand's value: the
/// outside function hands back the other operand as soon as it finds one
/// to be zero. And where neither operand is zero and both operands and
/// their sum fit 96 bits at the larger scale, the result is that sum at
/// that scale: the outside function then multiplies the operand of the
/// smaller scale by the power of ten between the scales and adds the two
/// mantissas, and only a sum or a multiple of more than 96 bits makes it
/// round.
#[verifier::external_body]
pub(crate) fn checked_add(a: Scalar, b: Scalar) -> (r: Option<Scalar>)
    ensures
        r.deep_view() == decimal_sum(a@, b@),
        b@.mantissa == 0 ==> r is Some && r->0@.same_value(a@),
        a@.mantissa == 0 ==> r is Some && r->0@.same_value(b@),
        a@.aligns_with(b@) && a@.plus(b@).representable() ==> r.deep_view() == Some(a@.plus(b@)),
{
    let x = rust_decimal::Decimal::from_i128_with_scale(a.mantissa, a.scale);
    let y = rust_decimal::Decimal::from_i128_with_scale(b.mantissa, b.scale);
    match x.checked_add(y) {
        Some(d) => Some(Scalar { mantissa: d.mantissa(), scale: d.scale() }),
        None => None,
    }
}

/// Calls `rust_decimal::Decimal::checked_sub`. Claims three things.
/// The result is the same for the same operands. Taking zero away succeeds
/// and gives a number of the first operand's value, and taking a number
/// away from zero gives one of that number's value with the sign turned:
/// the outside function hands back the other operand, with its sign turned
/// where it is the second, as soon as it finds one to be zero. And where
/// neither operand is zero and both operands and their difference fit 96
/// bits at the larger scale, the result is that difference at that scale:
/// the outside function subtracts as it adds, with the sign of the second
/// operand turned.
#[verifier::external_body]
pub(crate) fn checked_sub(a: Scalar, b: Scalar) -> (r: Option<Scalar>)
    ensures
        r.deep_view() == decimal_difference(a@, b@),
        b@.mantissa == 0 ==> r is Some && r->0@.same_value(a@),
        a@.mantissa == 0 ==> r is Some && r->0@.same_value(b@.negated()),
        a@.aligns_with(b@) && a@.minus(b@).representable() ==> r.deep_view() == Some(
            a@.minus(b@),
        ),
{
    let x = rust_decimal::Decimal::from_i128_with_scale(a.mantissa, a.scale);
    let y = rust_decimal::Decimal::from_i128_with_scale(b.mantissa, b.scale);
    match x.checked_sub(y) {
        Some(d) => Some(Scalar { mantissa: d.mantissa(), scale: d.scale() }),
        None => None,
    }
}

/// Calls `rust_decimal::Decimal::checked_mul`. Claims that the result is
/// the same for the same operands, and that a product with zero is the
/// zero without fractional digits: the outside function starts by handing
/// that back where either operand is zero.
#[verifier::external_body]
pub(crate) fn checked_mul(a: Scalar, b: Scalar) -> (r: Option<Scalar>)
    ensures
        r.deep_view() == decimal_product(a@, b@),
        a@.mantissa == 0 || b@.mantissa == 0 ==> r.deep_view() == Some(
            Number { mantissa: 0, scale: 0 },
        ),
{
    let x = rust_decimal::Decimal::from_i128_with_scale(a.mantissa, a.scale);
    let y = rust_decimal::Decimal::from_i128_with_scale(b.mantissa, b.scale);
    match x.checked_mul(y) {
        Some(d) => Some(Scalar { mantissa: d.mantissa(), scale: d.scale() }),
        None => None,
    }
}

/// Calls `rust_decimal::Decimal::checked_div`. Claims only that the result
/// is the same for the same operands.
#[verifier::external_body]
pub(crate) fn checked_div(a: Scalar, b: Scalar) -> (r: Option<Scalar>)
    ensures
        r.deep_view() == decimal_quotient(a@, b@),
{
    let x = rust_decimal::Decimal::from_i128_with_scale(a.mantissa, a.scale);
    let y = rust_decimal::Decimal::from_i128_with_scale(b.mantissa, b.scale);
    match x.checked_div(y) {
        Some(d) => Some(Scalar { mantissa: d.mantissa(), scale: d.scale() }),
        None => None,
    }
}

/// Calls `rust_decimal::MathematicalOps::checked_powd`. Claims only that the
/// result is the same for the same operands. The base is held to ten: for a
/// power that is no whole number the outside function takes the logarithm
/// of the base, and panics where it finds none.
#[verifier::external_body]
pub(crate) fn checked_powd(base: Scalar, exponent: Scalar) -> (r: Option<Scalar>)
    requires
        base@ == ten(),
    ensures
        r.deep_view() == decimal_power(base@, exponent@),
{
    let x = rust_decimal::Decimal::from_i128_with_scale(base.mantissa, base.scale);
    let y = rust_decimal::Decimal::from_i128_with_scale(exponent.mantissa, exponent.scale);
    match rust_decimal::MathematicalOps::checked_powd(&x, y) {
        Some(d) => Some(Scalar { mantissa: d.mantissa(), scale: d.scale() }),
        None => None,
    }
}

} // verus!
