//! Decimal numbers as a signed mantissa and a count of fractional digits.

use vstd::arithmetic::div_mod::lemma_fundamental_div_mod_converse;
use vstd::arithmetic::power::{lemma_pow_adds, lemma_pow_increases, lemma_pow_positive, pow};
use vstd::prelude::*;
use vstd::std_specs::cmp::PartialEqSpecImpl;
use vstd::string::StringExecFns;

verus! {

/// The largest magnitude that a mantissa can have: `2^96 - 1`.
pub const MAX_MANTISSA: i128 = 79_228_162_514_264_337_593_543_950_335;

/// The largest number of fractional digits.
pub const MAX_SCALE: u32 = 28;

/// Ten to the power `e`.
pub open spec fn pow10(e: nat) -> int {
    pow(10, e)
}

/// How many units `m` comes to when it is rounded to a whole number of
/// units: the nearest count, and of two equally near ones the one further
/// from zero.
pub open spec fn nearest_count(m: int, unit: int) -> int {
    if m >= 0 {
        (2 * m + unit) / (2 * unit)
    } else {
        -((2 * (-m) + unit) / (2 * unit))
    }
}

/// The character that stands for the digit `d`.
pub open spec fn digit(d: int) -> char {
    seq!['0', '1', '2', '3', '4', '5', '6', '7', '8', '9'][d]
}

/// The digits of `n`, the highest first, without leading zeros: `0` alone
/// for zero.
pub open spec fn digits(n: nat) -> Seq<char>
    decreases n,
{
    if n < 10 {
        seq![digit(n as int)]
    } else {
        digits(n / 10).push(digit(n as int % 10))
    }
}

/// The lowest `width` digits of `n`, the highest first, leading zeros
/// included.
pub open spec fn low_digits(n: nat, width: nat) -> Seq<char>
    decreases width,
{
    if width == 0 {
        Seq::empty()
    } else {
        low_digits(n / 10, (width - 1) as nat).push(digit(n as int % 10))
    }
}

/// The number `mantissa / 10^scale`, without any bound on either part.
pub struct Number {
    pub mantissa: int,
    pub scale: nat,
}

impl Number {
    /// Whether a [`Scalar`] can hold this number as it is written.
    pub open spec fn representable(self) -> bool {
        &&& -MAX_MANTISSA <= self.mantissa <= MAX_MANTISSA
        &&& self.scale <= MAX_SCALE
    }

    /// Whether two numbers have the same value, however many trailing
    /// zeros either is written with.
    pub open spec fn same_value(self, other: Number) -> bool {
        self.mantissa * pow10(other.scale) == other.mantissa * pow10(self.scale)
    }

    /// The mantissa that this number has when it is written with `scale`
    /// fractional digits, which are no fewer than its own.
    pub open spec fn mantissa_at(self, scale: nat) -> int {
        self.mantissa * pow10((scale - self.scale) as nat)
    }

    /// The larger of the two scales.
    pub open spec fn longer_scale(self, other: Number) -> nat {
        if self.scale >= other.scale {
            self.scale
        } else {
            other.scale
        }
    }

    /// Whether the two numbers are both other than zero and can both be
    /// written with the digits of the longer one in a mantissa of 96 bits.
    pub open spec fn aligns_with(self, other: Number) -> bool {
        let scale = self.longer_scale(other);
        &&& self.mantissa != 0
        &&& other.mantissa != 0
        &&& -MAX_MANTISSA <= self.mantissa_at(scale) <= MAX_MANTISSA
        &&& -MAX_MANTISSA <= other.mantissa_at(scale) <= MAX_MANTISSA
    }

    /// The number with its sign turned.
    pub open spec fn negated(self) -> Number {
        Number { mantissa: -self.mantissa, scale: self.scale }
    }

    /// The exact sum of the two numbers, with the digits of the longer one.
    pub open spec fn plus(self, other: Number) -> Number {
        let scale = self.longer_scale(other);
        Number { mantissa: self.mantissa_at(scale) + other.mantissa_at(scale), scale }
    }

    /// The exact difference of the two numbers, with the digits of the
    /// longer one.
    pub open spec fn minus(self, other: Number) -> Number {
        let scale = self.longer_scale(other);
        Number { mantissa: self.mantissa_at(scale) - other.mantissa_at(scale), scale }
    }

    /// The number written out: a minus sign where it is negative, the
    /// digits of its whole part, and, where it has fractional digits, a
    /// point and all of them.
    pub open spec fn text(self) -> Seq<char> {
        let magnitude = if self.mantissa < 0 {
            (-self.mantissa) as nat
        } else {
            self.mantissa as nat
        };
        let sign = if self.mantissa < 0 {
            seq!['-']
        } else {
            Seq::empty()
        };
        let fraction = if self.scale > 0 {
            seq!['.'] + low_digits(magnitude, self.scale)
        } else {
            Seq::empty()
        };
        sign + digits((magnitude / pow10(self.scale) as nat) as nat) + fraction
    }

    /// This number with at most `places` fractional digits: unchanged where
    /// it has no more than that, else rounded to the nearest number with
    /// `places` digits, half-way cases going away from zero.
    pub open spec fn rounded(self, places: nat) -> Number {
        if self.scale <= places {
            self
        } else {
            Number {
                mantissa: nearest_count(self.mantissa, pow10((self.scale - places) as nat)),
                scale: places,
            }
        }
    }
}

/// Having the same value is an equivalence: every number has its own
/// value, and the relation can be turned round and chained.
pub proof fn lemma_same_value_is_an_equivalence(a: Number, b: Number, c: Number)
    ensures
        a.same_value(a),
        a.same_value(b) ==> b.same_value(a),
        a.same_value(b) && b.same_value(c) ==> a.same_value(c),
{
    if a.same_value(b) && b.same_value(c) {
        let (pa, pb, pc) = (pow10(a.scale), pow10(b.scale), pow10(c.scale));
        lemma_pow_positive(10, b.scale);
        assert((a.mantissa * pc) * pb == (c.mantissa * pa) * pb) by (nonlinear_arith)
            requires
                a.mantissa * pb == b.mantissa * pa,
                b.mantissa * pc == c.mantissa * pb,
        ;
        assert(a.mantissa * pc == c.mantissa * pa) by (nonlinear_arith)
            requires
                (a.mantissa * pc) * pb == (c.mantissa * pa) * pb,
                pb > 0,
        ;
    }
}

/// Rounding to whole units moves a number by half a unit at most, and a
/// number that lies half-way between two counts goes to the one further
/// from zero.
pub proof fn lemma_nearest_count_is_nearest(m: int, unit: int)
    requires
        unit > 0,
    ensures
        m >= 0 ==> -unit <= 2 * (m - nearest_count(m, unit) * unit) < unit,
        m < 0 ==> -unit < 2 * (m - nearest_count(m, unit) * unit) <= unit,
{
    let mag = if m >= 0 {
        m
    } else {
        -m
    };
    let c = (2 * mag + unit) / (2 * unit);
    assert(2 * mag + unit == c * (2 * unit) + (2 * mag + unit) % (2 * unit) && 0 <= (2 * mag
        + unit) % (2 * unit) < 2 * unit) by (nonlinear_arith)
        requires
            c == (2 * mag + unit) / (2 * unit),
            unit > 0,
    ;
    assert(c * (2 * unit) == 2 * (c * unit)) by (nonlinear_arith);
    assert((-c) * unit == -(c * unit)) by (nonlinear_arith);
}

/// `pow10(28)` written out.
proof fn lemma_pow10_max()
    ensures
        pow10(28) == 10_000_000_000_000_000_000_000_000_000,
{
    reveal_with_fuel(pow, 29);
}

/// The powers of ten that a scale can ask for are positive and fit well
/// inside 128 bits.
proof fn lemma_pow10_bounds(e: nat)
    requires
        e <= MAX_SCALE,
    ensures
        0 < pow10(e) <= 10_000_000_000_000_000_000_000_000_000,
        e >= 1 ==> pow10(e) >= 10,
{
    lemma_pow10_max();
    lemma_pow_positive(10, e);
    lemma_pow_increases(10, e, 28);
    if e >= 1 {
        reveal_with_fuel(pow, 2);
        lemma_pow_increases(10, 1, e);
    }
}

/// Ten to the power `e`.
fn power_of_ten(e: u32) -> (r: u128)
    requires
        e <= MAX_SCALE,
    ensures
        r == pow10(e as nat),
{
    let mut r: u128 = 1;
    let mut i: u32 = 0;
    proof {
        reveal_with_fuel(pow, 1);
    }
    while i < e
        invariant
            i <= e <= MAX_SCALE,
            r == pow10(i as nat),
        decreases e - i,
    {
        proof {
            lemma_pow10_bounds((i + 1) as nat);
            reveal_with_fuel(pow, 1);
        }
        r = r * 10;
        i = i + 1;
    }
    r
}

/// The text of one digit.
fn digit_text(d: u128) -> (r: &'static str)
    requires
        d < 10,
    ensures
        r@ == seq![digit(d as int)],
{
    proof {
        reveal_strlit("0");
        reveal_strlit("1");
        reveal_strlit("2");
        reveal_strlit("3");
        reveal_strlit("4");
        reveal_strlit("5");
        reveal_strlit("6");
        reveal_strlit("7");
        reveal_strlit("8");
        reveal_strlit("9");
    }
    if d == 0 {
        "0"
    } else if d == 1 {
        "1"
    } else if d == 2 {
        "2"
    } else if d == 3 {
        "3"
    } else if d == 4 {
        "4"
    } else if d == 5 {
        "5"
    } else if d == 6 {
        "6"
    } else if d == 7 {
        "7"
    } else if d == 8 {
        "8"
    } else {
        "9"
    }
}

/// Writes the digits of `n` behind `text`.
fn append_digits(text: &mut String, n: u128)
    ensures
        final(text)@ == old(text)@ + digits(n as nat),
    decreases n,
{
    if n >= 10 {
        append_digits(text, n / 10);
    }
    text.append(digit_text(n % 10));
}

/// Writes the lowest `width` digits of `n` behind `text`.
fn append_low_digits(text: &mut String, n: u128, width: u32)
    ensures
        final(text)@ == old(text)@ + low_digits(n as nat, width as nat),
    decreases width,
{
    if width > 0 {
        append_low_digits(text, n / 10, width - 1);
        text.append(digit_text(n % 10));
    }
}

/// The magnitude of a mantissa.
fn magnitude(m: i128) -> (r: u128)
    requires
        -MAX_MANTISSA <= m <= MAX_MANTISSA,
    ensures
        r == (if m < 0 { -m } else { m as int }),
        r <= MAX_MANTISSA,
{
    if m < 0 {
        (-m) as u128
    } else {
        m as u128
    }
}

/// Two numbers have the same value exactly where the one with more digits
/// is the other one times the power of ten that lies between their scales.
proof fn lemma_same_value_aligned(fine: Number, coarse: Number)
    requires
        fine.scale >= coarse.scale,
    ensures
        fine.same_value(coarse) <==> fine.mantissa == coarse.mantissa * pow10(
            (fine.scale - coarse.scale) as nat,
        ),
        coarse.same_value(fine) <==> fine.same_value(coarse),
{
    let gap = (fine.scale - coarse.scale) as nat;
    let low = pow10(coarse.scale);
    let step = pow10(gap);
    lemma_pow_adds(10, coarse.scale, gap);
    lemma_pow_positive(10, coarse.scale);
    assert(coarse.mantissa * (low * step) == (coarse.mantissa * step) * low)
        by (nonlinear_arith);
    assert(fine.mantissa * low == (coarse.mantissa * step) * low <==> fine.mantissa
        == coarse.mantissa * step) by (nonlinear_arith)
        requires
            low > 0,
    ;
}

/// Splitting a magnitude into whole units and a rest gives its nearest
/// count: one more than the whole units where the rest is half a unit or
/// more.
proof fn lemma_nearest_count_by_parts(mag: int, unit: int, q: int, rest: int)
    requires
        0 <= mag,
        0 < unit,
        0 <= rest < unit,
        mag == q * unit + rest,
    ensures
        nearest_count(mag, unit) == (if 2 * rest >= unit { q + 1 } else { q }),
        nearest_count(-mag, unit) == -nearest_count(mag, unit),
{
    if 2 * rest >= unit {
        assert(2 * mag + unit == (q + 1) * (2 * unit) + (2 * rest - unit)) by (nonlinear_arith)
            requires
                mag == q * unit + rest,
        ;
        lemma_fundamental_div_mod_converse(2 * mag + unit, 2 * unit, q + 1, 2 * rest - unit);
    } else {
        assert(2 * mag + unit == q * (2 * unit) + (2 * rest + unit)) by (nonlinear_arith)
            requires
                mag == q * unit + rest,
        ;
        lemma_fundamental_div_mod_converse(2 * mag + unit, 2 * unit, q, 2 * rest + unit);
    }
    if mag == 0 {
        assert(q == 0) by (nonlinear_arith)
            requires
                0 == q * unit + rest,
                0 <= rest < unit,
                0 < unit,
        ;
    }
}

/// A decimal number with at most 28 fractional digits and a mantissa of at
/// most 96 bits.
#[derive(Clone, Copy, Debug)]
pub struct Scalar {
    pub(crate) mantissa: i128,
    pub(crate) scale: u32,
}

impl View for Scalar {
    type V = Number;

    closed spec fn view(&self) -> Number {
        Number { mantissa: self.mantissa as int, scale: self.scale as nat }
    }
}

impl DeepView for Scalar {
    type V = Number;

    open spec fn deep_view(&self) -> Number {
        self@
    }
}

impl Scalar {
    #[verifier::type_invariant]
    spec fn in_range(self) -> bool {
        self@.representable()
    }

    /// The decimal number `mantissa / 10^scale`, or `None` where the
    /// mantissa takes more than 96 bits or the scale is above 28.
    pub fn new(mantissa: i128, scale: u32) -> (r: Option<Scalar>)
        ensures
            r is Some <==> (Number { mantissa: mantissa as int, scale: scale as nat }).representable(),
            r matches Some(s) ==> s@ == (Number { mantissa: mantissa as int, scale: scale as nat }),
    {
        if -MAX_MANTISSA <= mantissa && mantissa <= MAX_MANTISSA && scale <= MAX_SCALE {
            Some(Scalar { mantissa, scale })
        } else {
            None
        }
    }

    /// The scalar that stands for the whole number `whole`, as contracts
    /// write it.
    pub closed spec fn of_whole(whole: int) -> Scalar {
        Scalar { mantissa: whole as i128, scale: 0 }
    }

    /// The whole number `value`.
    pub fn from_i64(value: i64) -> (r: Scalar)
        ensures
            r@ == (Number { mantissa: value as int, scale: 0 }),
            r == Scalar::of_whole(value as int),
    {
        Scalar { mantissa: value as i128, scale: 0 }
    }

    /// The mantissa: the number without its decimal point.
    pub fn mantissa(&self) -> (r: i128)
        ensures
            r == self@.mantissa,
            -MAX_MANTISSA <= r <= MAX_MANTISSA,
    {
        proof {
            use_type_invariant(self);
        }
        self.mantissa
    }

    /// The number of fractional digits.
    pub fn scale(&self) -> (r: u32)
        ensures
            r == self@.scale,
            r <= MAX_SCALE,
    {
        proof {
            use_type_invariant(self);
        }
        self.scale
    }

    /// Whether `fine`, which has at least as many digits, has the value of
    /// `coarse`.
    fn equals_coarser(fine: &Scalar, coarse: &Scalar) -> (r: bool)
        requires
            fine@.scale >= coarse@.scale,
        ensures
            r == fine@.same_value(coarse@),
    {
        proof {
            use_type_invariant(fine);
            use_type_invariant(coarse);
            lemma_same_value_aligned(fine@, coarse@);
            lemma_pow10_bounds((fine.scale - coarse.scale) as nat);
        }
        let step = power_of_ten(fine.scale - coarse.scale);
        let f = magnitude(fine.mantissa);
        let c = magnitude(coarse.mantissa);
        let r = f % step == 0 && f / step == c && (f == 0 || (fine.mantissa < 0) == (
        coarse.mantissa < 0));
        proof {
            let fm = fine.mantissa as int;
            let cm = coarse.mantissa as int;
            let p = step as int;
            assert(f == (f as int / p) * p + f as int % p) by (nonlinear_arith)
                requires
                    p > 0,
            ;
            if fm == cm * p {
                assert(f == c * p + 0) by (nonlinear_arith)
                    requires
                        fm == cm * p,
                        f == (if fm < 0 { -fm } else { fm }),
                        c == (if cm < 0 { -cm } else { cm }),
                        p > 0,
                ;
                lemma_fundamental_div_mod_converse(f as int, p, c as int, 0);
                assert(fm != 0 ==> ((fm < 0) == (cm < 0))) by (nonlinear_arith)
                    requires
                        fm == cm * p,
                        p > 0,
                ;
            }
            if r {
                assert(fm == cm * p) by (nonlinear_arith)
                    requires
                        f == c * p,
                        f == (if fm < 0 { -fm } else { fm }),
                        c == (if cm < 0 { -cm } else { cm }),
                        f == 0 || ((fm < 0) == (cm < 0)),
                        p > 0,
                ;
            }
        }
        r
    }

    /// Whether the two numbers have the same value: `1.50` and `1.5` do.
    pub fn same_value(&self, other: &Scalar) -> (r: bool)
        ensures
            r == self@.same_value(other@),
    {
        if self.scale >= other.scale {
            Scalar::equals_coarser(self, other)
        } else {
            proof {
                lemma_same_value_aligned(other@, self@);
            }
            Scalar::equals_coarser(other, self)
        }
    }

    /// The number written out, with all its digits: `-0.005`, `1232.40`.
    pub fn to_string(&self) -> (r: String)
        ensures
            r@ == self@.text(),
    {
        proof {
            use_type_invariant(self);
            lemma_pow10_bounds(self.scale as nat);
            reveal_strlit("-");
            reveal_strlit(".");
        }
        let mut text = String::new();
        if self.mantissa < 0 {
            text.append("-");
        }
        let mag = magnitude(self.mantissa);
        let unit = power_of_ten(self.scale);
        append_digits(&mut text, mag / unit);
        if self.scale > 0 {
            text.append(".");
            append_low_digits(&mut text, mag, self.scale);
        }
        text
    }

    /// This number with at most `places` fractional digits, half-way cases
    /// rounded away from zero.
    pub fn rounded(&self, places: u32) -> (r: Scalar)
        ensures
            r@ == self@.rounded(places as nat),
    {
        proof {
            use_type_invariant(self);
        }
        if self.scale <= places {
            return *self;
        }
        let unit = power_of_ten(self.scale - places);
        let mag = magnitude(self.mantissa);
        proof {
            lemma_pow10_bounds((self.scale - places) as nat);
        }
        let q = mag / unit;
        let rest = mag % unit;
        let count = if rest >= unit - rest {
            q + 1
        } else {
            q
        };
        proof {
            assert(mag == q * unit + rest) by (nonlinear_arith)
                requires
                    q == mag as int / unit as int,
                    rest == mag as int % unit as int,
                    unit > 0,
            ;
            lemma_nearest_count_by_parts(mag as int, unit as int, q as int, rest as int);
            assert(count <= MAX_MANTISSA) by (nonlinear_arith)
                requires
                    mag == q * unit + rest,
                    unit >= 10,
                    rest >= 0,
                    q >= 0,
                    count <= q + 1,
                    mag <= MAX_MANTISSA,
            ;
        }
        let mantissa = if self.mantissa < 0 {
            -(count as i128)
        } else {
            count as i128
        };
        Scalar { mantissa, scale: places }
    }
}

impl PartialEq for Scalar {
    /// Equality of value, not of digits: `1.50 == 1.5`.
    fn eq(&self, other: &Scalar) -> (r: bool) {
        self.same_value(other)
    }
}

impl PartialEqSpecImpl for Scalar {
    open spec fn obeys_eq_spec() -> bool {
        true
    }

    open spec fn eq_spec(&self, other: &Scalar) -> bool {
        self@.same_value(other@)
    }
}

} // verus!
