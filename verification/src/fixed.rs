//! Signed fixed-point numbers with 32 fractional bits and saturating arithmetic.

use std::cmp::Ordering;
use vstd::prelude::*;
use vstd::std_specs::cmp::PartialOrdSpecImpl;

verus! {

/// Number of fractional bits of a [`Fixed`].
pub const FRACTION_BITS: u32 = 32;

/// Raw value of the number one.
pub const ONE_RAW: i64 = 0x1_0000_0000;

/// Raw value of one half.
pub const HALF_RAW: i64 = 0x8000_0000;

/// A real number `raw / 2^32`, held as a 64-bit signed integer.
///
/// Every operation rounds to a representable number and saturates at the
/// ends of the range instead of wrapping.
#[derive(Clone, Copy, Debug, PartialEq, Eq, Structural, Hash)]
pub struct Fixed {
    pub raw: i64,
}

impl View for Fixed {
    type V = int;

    open spec fn view(&self) -> int {
        self.raw as int
    }
}

impl PartialOrd for Fixed {
    /// Numbers are ordered as their raw values are.
    fn partial_cmp(&self, other: &Fixed) -> (order: Option<Ordering>) {
        if self.raw < other.raw {
            Some(Ordering::Less)
        } else if self.raw > other.raw {
            Some(Ordering::Greater)
        } else {
            Some(Ordering::Equal)
        }
    }
}

impl PartialOrdSpecImpl for Fixed {
    open spec fn obeys_partial_cmp_spec() -> bool {
        true
    }

    open spec fn partial_cmp_spec(&self, other: &Fixed) -> Option<Ordering> {
        if self.raw < other.raw {
            Some(Ordering::Less)
        } else if self.raw > other.raw {
            Some(Ordering::Greater)
        } else {
            Some(Ordering::Equal)
        }
    }
}

/// The representable number nearest to `v / 2^32`: `v` itself inside the
/// 64-bit range, the nearest end of the range outside it.
pub open spec fn saturate(v: int) -> Fixed {
    if v > i64::MAX {
        Fixed { raw: i64::MAX }
    } else if v < i64::MIN {
        Fixed { raw: i64::MIN }
    } else {
        Fixed { raw: v as i64 }
    }
}

/// `v / 2^32` rounded to the nearest integer, halves away from zero.
pub open spec fn round_scaled(v: int) -> int {
    if v >= 0 {
        (v + HALF_RAW) / (ONE_RAW as int)
    } else {
        -((-v + HALF_RAW) / (ONE_RAW as int))
    }
}

impl Fixed {
    /// The number zero.
    pub open spec fn zero() -> Fixed {
        Fixed { raw: 0 }
    }

    /// The number one.
    pub open spec fn one() -> Fixed {
        Fixed { raw: ONE_RAW }
    }

    /// The largest representable number.
    pub open spec fn largest() -> Fixed {
        Fixed { raw: i64::MAX }
    }

    /// The sum, saturated.
    pub open spec fn sum(self, other: Fixed) -> Fixed {
        saturate(self@ + other@)
    }

    /// The difference, saturated.
    pub open spec fn difference(self, other: Fixed) -> Fixed {
        saturate(self@ - other@)
    }

    /// The product, rounded to the nearest representable number and saturated.
    pub open spec fn product(self, other: Fixed) -> Fixed {
        saturate(round_scaled(self@ * other@))
    }

    /// The absolute value, saturated (the most negative number has no
    /// representable negation).
    pub open spec fn magnitude(self) -> Fixed {
        saturate(if self@ >= 0 { self@ } else { -self@ })
    }

    /// The absolute value in hundredths, rounded to the nearest whole
    /// hundredth, halves upwards.
    pub open spec fn hundredths(self) -> nat {
        ((self.magnitude()@ * 100 + HALF_RAW) / (ONE_RAW as int)) as nat
    }

    /// The number halfway from `self` to `other`: `self` plus half of the
    /// distance, the half cut toward zero.
    pub open spec fn halfway(self, other: Fixed) -> Fixed {
        let distance = other@ - self@;
        let step = if distance >= 0 {
            distance / 2
        } else {
            -((-distance) / 2)
        };
        Fixed { raw: (self@ + step) as i64 }
    }

    /// The fraction in `[0, 1)` whose 32 bits are the upper half of `word`.
    pub open spec fn unit_fraction(word: u64) -> Fixed {
        Fixed { raw: (word / 0x1_0000_0000) as i64 }
    }

    /// The number `raw / 2^32`.
    pub fn from_raw(raw: i64) -> (r: Fixed)
        ensures
            r@ == raw,
    {
        Fixed { raw }
    }

    /// The number times `2^32`.
    pub fn raw(&self) -> (r: i64)
        ensures
            r == self@,
    {
        self.raw
    }

    /// The whole number `n`.
    pub fn from_int(n: i32) -> (r: Fixed)
        ensures
            r@ == n * ONE_RAW,
    {
        Fixed { raw: n as i64 * 0x1_0000_0000 }
    }

    /// Turns a uniformly drawn 64-bit word into a fraction in `[0, 1)`,
    /// keeping its 32 most significant bits.
    pub fn from_unit_word(word: u64) -> (r: Fixed)
        ensures
            r == Fixed::unit_fraction(word),
            0 <= r@ < ONE_RAW,
    {
        Fixed { raw: (word / 0x1_0000_0000) as i64 }
    }

    /// The sum, or the end of the range that the sum lies beyond.
    pub fn saturating_add(self, other: Fixed) -> (r: Fixed)
        ensures
            r == self.sum(other),
    {
        let wide: i128 = self.raw as i128 + other.raw as i128;
        narrow(wide)
    }

    /// The difference, or the end of the range that the difference lies beyond.
    pub fn saturating_sub(self, other: Fixed) -> (r: Fixed)
        ensures
            r == self.difference(other),
    {
        let wide: i128 = self.raw as i128 - other.raw as i128;
        narrow(wide)
    }

    /// The product, rounded to the nearest representable number, halves
    /// away from zero, or the end of the range that the product lies beyond.
    pub fn saturating_mul(self, other: Fixed) -> (r: Fixed)
        ensures
            r == self.product(other),
    {
        let a: u128 = unsigned_magnitude(self.raw) as u128;
        let b: u128 = unsigned_magnitude(other.raw) as u128;
        assert(a * b <= 0x4000_0000_0000_0000_0000_0000_0000_0000) by (nonlinear_arith)
            requires
                a <= 0x8000_0000_0000_0000,
                b <= 0x8000_0000_0000_0000,
        ;
        let scaled: u128 = (a * b + 0x8000_0000) / 0x1_0000_0000;
        let negative: bool = (self.raw < 0) != (other.raw < 0);
        proof {
            lemma_signed_product(self@, other@);
        }
        if negative {
            narrow(-(scaled as i128))
        } else {
            narrow(scaled as i128)
        }
    }

    /// The absolute value; the largest number for the most negative one.
    pub fn saturating_abs(self) -> (r: Fixed)
        ensures
            r == self.magnitude(),
            r@ >= 0,
    {
        if self.raw >= 0 {
            self
        } else {
            narrow(-(self.raw as i128))
        }
    }

    /// The absolute value as a whole number of hundredths.
    pub fn rounded_hundredths(self) -> (h: u64)
        ensures
            h == self.hundredths(),
    {
        let m: u128 = self.saturating_abs().raw as u128;
        ((m * 100 + 0x8000_0000) / 0x1_0000_0000) as u64
    }

    /// The number halfway from `self` to `other`.
    ///
    /// It lies between the two, and unless they are equal it is strictly
    /// nearer to `self` than `other` is.
    pub fn midpoint(self, other: Fixed) -> (r: Fixed)
        ensures
            r == self.halfway(other),
            self@ <= other@ ==> self@ <= r@ <= other@,
            self@ >= other@ ==> self@ >= r@ >= other@,
            self@ != other@ ==> vstd::math::abs(self@ - r@) < vstd::math::abs(other@ - self@),
    {
        let distance: i128 = other.raw as i128 - self.raw as i128;
        let step: i128 = if distance >= 0 {
            distance / 2
        } else {
            -((-distance) / 2)
        };
        Fixed { raw: (self.raw as i128 + step) as i64 }
    }
}

/// Rounding brings a scaled product to a whole number that is no more than
/// half a unit away from it.
pub proof fn lemma_round_scaled_is_nearest(v: int)
    ensures
        -HALF_RAW <= v - round_scaled(v) * ONE_RAW <= HALF_RAW,
        round_scaled(-v) == -round_scaled(v),
{
}

/// The order of the factors does not matter to a product.
pub proof fn lemma_product_commutes(a: Fixed, b: Fixed)
    ensures
        a.product(b) == b.product(a),
{
    assert(a@ * b@ == b@ * a@) by (nonlinear_arith);
}

/// Within the range, sums and differences are exact.
pub proof fn lemma_sum_is_exact(a: Fixed, b: Fixed)
    ensures
        i64::MIN <= a@ + b@ <= i64::MAX ==> a.sum(b)@ == a@ + b@,
        i64::MIN <= a@ - b@ <= i64::MAX ==> a.difference(b)@ == a@ - b@,
        a.sum(b) == b.sum(a),
{
}

/// The absolute value of a 64-bit integer, which always fits in 64 unsigned bits.
pub(crate) fn unsigned_magnitude(v: i64) -> (m: u64)
    ensures
        m == if v >= 0 { v as int } else { -(v as int) },
{
    if v >= 0 {
        v as u64
    } else {
        (-(v as i128)) as u64
    }
}

/// Brings a wide intermediate result back into the 64-bit range.
fn narrow(wide: i128) -> (r: Fixed)
    ensures
        r == saturate(wide as int),
{
    if wide > i64::MAX as i128 {
        Fixed { raw: i64::MAX }
    } else if wide < i64::MIN as i128 {
        Fixed { raw: i64::MIN }
    } else {
        Fixed { raw: wide as i64 }
    }
}

/// The product of two integers is the product of their absolute values,
/// negated when exactly one of them is negative.
proof fn lemma_signed_product(a: int, b: int)
    ensures
        ({
            let ma = if a >= 0 { a } else { -a };
            let mb = if b >= 0 { b } else { -b };
            if (a < 0) != (b < 0) {
                a * b == -(ma * mb) && a * b <= 0
            } else {
                a * b == ma * mb && a * b >= 0
            }
        }),
{
    assert((-a) * b == -(a * b)) by (nonlinear_arith);
    assert(a * (-b) == -(a * b)) by (nonlinear_arith);
    assert((-a) * (-b) == a * b) by (nonlinear_arith);
    assert(a >= 0 && b >= 0 ==> a * b >= 0) by (nonlinear_arith);
    assert(a <= 0 && b <= 0 ==> a * b >= 0) by (nonlinear_arith);
    assert(a >= 0 && b <= 0 ==> a * b <= 0) by (nonlinear_arith);
    assert(a <= 0 && b >= 0 ==> a * b <= 0) by (nonlinear_arith);
}

} // verus!
