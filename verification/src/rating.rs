//! A rating: one decimal number that stands for a player's strength.

use crate::decimal::{checked_add, checked_sub, decimal_difference, decimal_sum};
use crate::scalar::{Number, Scalar};
use vstd::prelude::*;
use vstd::std_specs::cmp::PartialEqSpecImpl;
use vstd::std_specs::convert::FromSpecImpl;

verus! {

/// A player's strength. No bounds are put on it beyond those of a
/// [`Scalar`]: it may be negative. A rating is never changed in place:
/// every operation gives a new one.
#[derive(Debug, Clone, Copy)]
pub struct Rating(Scalar);

impl View for Rating {
    type V = Number;

    closed spec fn view(&self) -> Number {
        self.0@
    }
}

impl DeepView for Rating {
    type V = Number;

    open spec fn deep_view(&self) -> Number {
        self@
    }
}

impl Rating {
    /// The rating that holds `number`, as contracts write it.
    pub closed spec fn holding(number: Scalar) -> Rating {
        Rating(number)
    }

    /// The rating that stands for the whole number `whole`, as contracts
    /// write it.
    pub closed spec fn of_whole(whole: int) -> Rating {
        Rating(Scalar::of_whole(whole))
    }

    /// The rating of the given strength.
    pub fn new(rating: Scalar) -> (r: Rating)
        ensures
            r@ == rating@,
            r == Rating::holding(rating),
    {
        Rating(rating)
    }

    /// The number inside.
    pub fn scalar(&self) -> (r: Scalar)
        ensures
            r@ == self@,
    {
        self.0
    }

    /// The rating as a whole number, half-way cases rounded away from zero;
    /// `None` where that number is no `i32`.
    pub fn round_to_i32(&self) -> (r: Option<i32>)
        ensures
            r is Some <==> i32::MIN <= self@.rounded(0).mantissa <= i32::MAX,
            r matches Some(whole) ==> whole == self@.rounded(0).mantissa,
    {
        let whole = self.0.rounded(0).mantissa();
        if -2147483648 <= whole && whole <= 2147483647 {
            Some(whole as i32)
        } else {
            None
        }
    }

    /// The rating with at most `decimal_places` fractional digits, half-way
    /// cases rounded away from zero.
    pub fn rounded(&self, decimal_places: u32) -> (r: Scalar)
        ensures
            r@ == self@.rounded(decimal_places as nat),
    {
        self.0.rounded(decimal_places)
    }

    /// The rating rounded to one fractional digit, as it is usually shown.
    pub fn value(&self) -> (r: Scalar)
        ensures
            r@ == self@.rounded(1),
    {
        self.rounded(1)
    }

    /// The rating raised by `delta`; `None` where the sum is out of range.
    /// Raising by zero changes nothing, raising a rating of zero gives the
    /// delta, and where rating, delta and sum can all be written with the
    /// digits of the longer of the two, the sum is exact. Beyond that the
    /// sum is as the decimal arithmetic rounds it.
    pub fn checked_add(self, delta: Scalar) -> (r: Option<Rating>)
        ensures
            r.deep_view() == decimal_sum(self@, delta@),
            delta@.mantissa == 0 ==> r is Some && r->0@.same_value(self@),
            self@.mantissa == 0 ==> r is Some && r->0@.same_value(delta@),
            self@.aligns_with(delta@) && self@.plus(delta@).representable() ==> r.deep_view()
                == Some(self@.plus(delta@)),
    {
        match checked_add(self.0, delta) {
            Some(sum) => Some(Rating(sum)),
            None => None,
        }
    }

    /// The rating lowered by `delta`; `None` where the difference is out of
    /// range. Lowering by zero changes nothing, lowering a rating of zero
    /// gives the delta with its sign turned, and where rating, delta and
    /// difference can all be written with the digits of the longer of the
    /// two, the difference is exact. Beyond that the difference is as the
    /// decimal arithmetic rounds it.
    pub fn checked_sub(self, delta: Scalar) -> (r: Option<Rating>)
        ensures
            r.deep_view() == decimal_difference(self@, delta@),
            delta@.mantissa == 0 ==> r is Some && r->0@.same_value(self@),
            self@.mantissa == 0 ==> r is Some && r->0@.same_value(delta@.negated()),
            self@.aligns_with(delta@) && self@.minus(delta@).representable() ==> r.deep_view()
                == Some(self@.minus(delta@)),
    {
        match checked_sub(self.0, delta) {
            Some(difference) => Some(Rating(difference)),
            None => None,
        }
    }

    /// The rating written out in full, with all its digits and unrounded.
    pub fn to_string(&self) -> (r: String)
        ensures
            r@ == self@.text(),
    {
        self.0.to_string()
    }
}

impl From<Scalar> for Rating {
    fn from(value: Scalar) -> (r: Rating)
        ensures
            r@ == value@,
    {
        Rating::new(value)
    }
}

impl FromSpecImpl<Scalar> for Rating {
    open spec fn obeys_from_spec() -> bool {
        true
    }

    open spec fn from_spec(value: Scalar) -> Rating {
        Rating::holding(value)
    }
}

impl From<i32> for Rating {
    fn from(value: i32) -> (r: Rating)
        ensures
            r@ == (Number { mantissa: value as int, scale: 0 }),
    {
        Rating(Scalar::from_i64(value as i64))
    }
}

impl FromSpecImpl<i32> for Rating {
    open spec fn obeys_from_spec() -> bool {
        true
    }

    open spec fn from_spec(value: i32) -> Rating {
        Rating::of_whole(value as int)
    }
}

impl From<i64> for Rating {
    fn from(value: i64) -> (r: Rating)
        ensures
            r@ == (Number { mantissa: value as int, scale: 0 }),
    {
        Rating(Scalar::from_i64(value))
    }
}

impl FromSpecImpl<i64> for Rating {
    open spec fn obeys_from_spec() -> bool {
        true
    }

    open spec fn from_spec(value: i64) -> Rating {
        Rating::of_whole(value as int)
    }
}

impl PartialEq for Rating {
    /// Equality of value, not of digits: a rating of `1500.0` equals one of
    /// `1500`.
    fn eq(&self, other: &Rating) -> (r: bool) {
        self.0.same_value(&other.0)
    }
}

impl PartialEqSpecImpl for Rating {
    open spec fn obeys_eq_spec() -> bool {
        true
    }

    open spec fn eq_spec(&self, other: &Rating) -> bool {
        self@.same_value(other@)
    }
}

} // verus!
