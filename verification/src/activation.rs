//! The functions that turn a unit's raw sum into the value its training
//! error is measured against.

use crate::fixed::{unsigned_magnitude, Fixed, HALF_RAW, ONE_RAW};
use vstd::arithmetic::power2::{lemma2_to64, lemma_pow2_pos, pow2};
use vstd::bits::lemma_u64_shr_is_div;
use vstd::prelude::*;

verus! {

/// How a unit's raw sum is squashed during training.
#[derive(Clone, Copy, Debug, PartialEq, Eq, Structural)]
pub enum Activation {
    /// The raw sum itself.
    Identity,
    /// The logistic function of base two, `1 / (1 + 2^-x)`.
    Logistic,
}

/// The number one in the 60-bit fraction that powers of two are computed in.
pub const DECAY_ONE: u64 = 0x1000_0000_0000_0000;

/// Number of terms of the power series after the leading one.
pub const SERIES_TERMS: u32 = 13;

/// `ln(2)^k / k!` as a 60-bit fraction, for `k` from 1 to [`SERIES_TERMS`].
pub open spec fn series_coefficient(k: int) -> int {
    if k == 1 {
        0xb17217f7d1cf79b
    } else if k == 2 {
        0x3d7f7bff058b1d5
    } else if k == 3 {
        0xe35846b82505fc
    } else if k == 4 {
        0x276556df749cee
    } else if k == 5 {
        0x5761ff9e299cc
    } else if k == 6 {
        0xa184897c363c
    } else if k == 7 {
        0xffe5fe2c458
    } else if k == 8 {
        0x162c0223a5d
    } else if k == 9 {
        0x1b5253d396
    } else if k == 10 {
        0x1e4cf5159
    } else if k == 11 {
        0x1e8cac73
    } else if k == 12 {
        0x1c3bd65
    } else {
        0x181619
    }
}

/// The alternating series `c_k - f (c_{k+1} - f (c_{k+2} - ...))`, with `f`
/// a 32-bit fraction and every product cut to 60 bits.
pub open spec fn series_tail(f: int, k: int) -> int
    decreases SERIES_TERMS - k,
{
    if k >= SERIES_TERMS {
        series_coefficient(SERIES_TERMS as int)
    } else {
        series_coefficient(k) - f * series_tail(f, k + 1) / (ONE_RAW as int)
    }
}

/// `2^-(f / 2^32)` as a 60-bit fraction, for a 32-bit fraction `f`: the
/// series of `e^(-f ln 2)` cut after [`SERIES_TERMS`] terms.
pub open spec fn fractional_decay(f: int) -> int {
    DECAY_ONE - f * series_tail(f, 1) / (ONE_RAW as int)
}

/// `2^-(y / 2^32)` as a 60-bit fraction, for `y >= 0`: the decay of the
/// fractional part, halved once for each whole unit of `y`.
pub open spec fn decay(y: int) -> int {
    let whole = y / (ONE_RAW as int);
    if whole > 60 {
        0
    } else {
        fractional_decay(y % (ONE_RAW as int)) / (pow2(whole as nat) as int)
    }
}

/// The raw value of the logistic function of base two at `x / 2^32`.
///
/// For `x >= 0` it is `1 / (1 + 2^-x)`, rounded to the nearest 32-bit
/// fraction; for `x < 0` it is one minus the value at `-x`.
pub open spec fn logistic_of(x: int) -> int {
    let y = if x >= 0 { x } else { -x };
    let denominator = DECAY_ONE + decay(y);
    let upper = (DECAY_ONE * ONE_RAW + denominator / 2) / denominator;
    if x >= 0 {
        upper
    } else {
        ONE_RAW - upper
    }
}

/// Every partial sum of the series lies between zero and its leading
/// coefficient.
proof fn lemma_series_tail_bounds(f: int, k: int)
    requires
        0 <= f < 0x1_0000_0000,
        1 <= k <= SERIES_TERMS,
    ensures
        0 <= series_tail(f, k) <= series_coefficient(k),
    decreases SERIES_TERMS - k,
{
    if k < SERIES_TERMS {
        lemma_series_tail_bounds(f, k + 1);
        lemma_cut_fraction(f, series_tail(f, k + 1));
    }
}

/// The decay of a fraction lies above zero and is at most one; it is one
/// for the fraction zero.
proof fn lemma_fractional_decay_bounds(f: int)
    requires
        0 <= f < 0x1_0000_0000,
    ensures
        0 < fractional_decay(f) <= DECAY_ONE,
        f == 0 ==> fractional_decay(f) == DECAY_ONE,
{
    lemma_series_tail_bounds(f, 1);
    lemma_cut_fraction(f, series_tail(f, 1));
}

/// The decay of a number that is not negative lies between zero and one;
/// it is one for the number zero.
proof fn lemma_decay_bounds(y: int)
    requires
        0 <= y,
    ensures
        0 <= decay(y) <= DECAY_ONE,
        y == 0 ==> decay(y) == DECAY_ONE,
{
    let whole = y / (ONE_RAW as int);
    let fraction = y % (ONE_RAW as int);
    if whole <= 60 {
        lemma_fractional_decay_bounds(fraction);
        lemma_pow2_pos(whole as nat);
        let part = fractional_decay(fraction);
        let divisor = pow2(whole as nat) as int;
        assert(0 <= part / divisor <= part) by (nonlinear_arith)
            requires
                0 <= part,
                0 < divisor,
        ;
        if y == 0 {
            lemma2_to64();
            assert(part / divisor == part) by (nonlinear_arith)
                requires
                    divisor == 1,
            ;
        }
    }
}

/// The logistic function takes values between zero and one: at least one
/// half where the argument is not negative, at most one half where it is
/// not positive, and so exactly one half at zero.
pub proof fn lemma_logistic_bounds(x: int)
    ensures
        0 <= logistic_of(x) <= ONE_RAW,
        x >= 0 ==> logistic_of(x) >= HALF_RAW,
        x <= 0 ==> logistic_of(x) <= HALF_RAW,
{
    let y = if x >= 0 { x } else { -x };
    lemma_decay_bounds(y);
    lemma_logistic_range(DECAY_ONE + decay(y));
}

/// The logistic values at `x` and at `-x` add up to one.
pub proof fn lemma_logistic_symmetry(x: int)
    ensures
        logistic_of(x) + logistic_of(-x) == ONE_RAW,
{
    if x == 0 {
        lemma_logistic_bounds(0);
    }
}

impl Activation {
    /// The value this activation gives to the raw sum `x`.
    pub open spec fn value(self, x: Fixed) -> Fixed {
        match self {
            Activation::Identity => x,
            Activation::Logistic => Fixed { raw: logistic_of(x@) as i64 },
        }
    }

    /// Applies the activation to a raw sum.
    pub fn apply(self, x: Fixed) -> (r: Fixed)
        ensures
            r == self.value(x),
    {
        match self {
            Activation::Identity => x,
            Activation::Logistic => x.logistic(),
        }
    }
}

impl Fixed {
    /// The logistic function of base two, `1 / (1 + 2^-x)`.
    ///
    /// The result lies between zero and one, is one half at zero, at least
    /// one half for a positive argument, and the values at `x` and `-x` add
    /// up to one.
    pub fn logistic(self) -> (r: Fixed)
        ensures
            r@ == logistic_of(self@),
            0 <= r@ <= ONE_RAW,
            self@ >= 0 ==> r@ >= HALF_RAW,
            self@ <= 0 ==> r@ <= HALF_RAW,
    {
        let y: u64 = unsigned_magnitude(self.raw);
        let whole: u64 = y / 0x1_0000_0000;
        let fraction: u64 = y % 0x1_0000_0000;
        let part: u64 = fractional_decay_of(fraction);
        let decayed: u64 = if whole > 60 {
            0
        } else {
            proof {
                lemma_u64_shr_is_div(part, whole);
                lemma_pow2_pos(whole as nat);
            }
            part >> whole
        };
        proof {
            lemma_decay_bounds(y as int);
            lemma_logistic_bounds(self@);
        }
        let denominator: u128 = DECAY_ONE as u128 + decayed as u128;
        let upper: u128 = (0x1000_0000_0000_0000_0000_0000u128 + denominator / 2) / denominator;
        if self.raw >= 0 {
            Fixed { raw: upper as i64 }
        } else {
            Fixed { raw: 0x1_0000_0000i64 - upper as i64 }
        }
    }
}

/// The coefficient table of the series.
fn coefficient(k: u32) -> (c: u64)
    requires
        1 <= k <= SERIES_TERMS,
    ensures
        c == series_coefficient(k as int),
{
    if k == 1 {
        0xb17217f7d1cf79b
    } else if k == 2 {
        0x3d7f7bff058b1d5
    } else if k == 3 {
        0xe35846b82505fc
    } else if k == 4 {
        0x276556df749cee
    } else if k == 5 {
        0x5761ff9e299cc
    } else if k == 6 {
        0xa184897c363c
    } else if k == 7 {
        0xffe5fe2c458
    } else if k == 8 {
        0x162c0223a5d
    } else if k == 9 {
        0x1b5253d396
    } else if k == 10 {
        0x1e4cf5159
    } else if k == 11 {
        0x1e8cac73
    } else if k == 12 {
        0x1c3bd65
    } else {
        0x181619
    }
}

/// Evaluates the series from its last term inwards.
fn fractional_decay_of(f: u64) -> (d: u64)
    requires
        f < 0x1_0000_0000,
    ensures
        d == fractional_decay(f as int),
{
    let mut k: u32 = SERIES_TERMS;
    let mut tail: u64 = coefficient(SERIES_TERMS);
    while k > 1
        invariant
            1 <= k <= SERIES_TERMS,
            f < 0x1_0000_0000,
            tail == series_tail(f as int, k as int),
        decreases k,
    {
        k = k - 1;
        proof {
            lemma_series_tail_bounds(f as int, k + 1);
            lemma_series_tail_bounds(f as int, k as int);
            lemma_cut_fraction(f as int, tail as int);
        }
        let cut: u128 = f as u128 * tail as u128 / 0x1_0000_0000;
        tail = coefficient(k) - cut as u64;
    }
    proof {
        lemma_series_tail_bounds(f as int, 1);
        lemma_cut_fraction(f as int, tail as int);
    }
    let cut: u128 = f as u128 * tail as u128 / 0x1_0000_0000;
    DECAY_ONE - cut as u64
}

/// A 32-bit fraction of a number, cut to an integer, is no more than the number.
proof fn lemma_cut_fraction(f: int, v: int)
    requires
        0 <= f < 0x1_0000_0000,
        0 <= v,
    ensures
        0 <= f * v <= 0x1_0000_0000 * v,
        0 <= f * v / 0x1_0000_0000 <= v,
        f == 0 ==> f * v / 0x1_0000_0000 == 0,
{
    assert(0 <= f * v <= 0x1_0000_0000 * v) by (nonlinear_arith)
        requires
            0 <= f < 0x1_0000_0000,
            0 <= v,
    ;
}

/// One divided by a number between one and two, as a rounded 32-bit
/// fraction, lies between one half and one.
proof fn lemma_logistic_range(denominator: int)
    requires
        0x1000_0000_0000_0000 <= denominator <= 0x2000_0000_0000_0000,
    ensures
        0x8000_0000 <= (0x1000_0000_0000_0000_0000_0000int + denominator / 2) / denominator
            <= 0x1_0000_0000,
        denominator == 0x2000_0000_0000_0000 ==> (0x1000_0000_0000_0000_0000_0000int + denominator
            / 2) / denominator == 0x8000_0000,
{
    let numerator = 0x1000_0000_0000_0000_0000_0000int + denominator / 2;
    assert(0x8000_0000 <= numerator / denominator <= 0x1_0000_0000) by (nonlinear_arith)
        requires
            denominator > 0,
            0x8000_0000 * denominator <= numerator,
            numerator < 0x1_0000_0001 * denominator,
    ;
    if denominator == 0x2000_0000_0000_0000 {
        assert(numerator / denominator == 0x8000_0000) by (nonlinear_arith)
            requires
                denominator == 0x2000_0000_0000_0000,
                numerator == 0x1000_0000_0000_0000_0000_0000int + 0x1000_0000_0000_0000,
        ;
    }
}

} // verus!
