//! Exact rational numbers.
//!
//! [`Rational`] is the mathematical model: a fraction of two unbounded
//! integers with a positive denominator. [`Ratio`] is the value that
//! executable code holds, with both parts in `i128`; its view is the
//! `Rational` with the same parts. Closed-form statistics are reported as
//! `Ratio`s so that no rounding enters them.

use vstd::prelude::*;
use crate::fixed::Fixed;
use crate::fixed::SCALE;
use crate::fixed::saturate;
use crate::fixed::trunc_div;
use vstd::arithmetic::div_mod::lemma_fundamental_div_mod_converse;

verus! {

/// A fraction `num / den` of mathematical integers.
pub struct Rational {
    pub num: int,
    pub den: int,
}

impl Rational {
    /// The denominator is positive.
    pub open spec fn wf(self) -> bool {
        self.den > 0
    }

    pub open spec fn zero() -> Rational {
        Rational { num: 0, den: 1 }
    }

    pub open spec fn one() -> Rational {
        Rational { num: 1, den: 1 }
    }

    pub open spec fn from_int(v: int) -> Rational {
        Rational { num: v, den: 1 }
    }

    /// The two fractions denote the same number.
    pub open spec fn eqv(self, rhs: Rational) -> bool {
        self.num * rhs.den == rhs.num * self.den
    }

    /// `self <= rhs` as numbers.
    pub open spec fn le(self, rhs: Rational) -> bool {
        self.num * rhs.den <= rhs.num * self.den
    }

    /// `self < rhs` as numbers.
    pub open spec fn lt(self, rhs: Rational) -> bool {
        self.num * rhs.den < rhs.num * self.den
    }

    pub open spec fn add(self, rhs: Rational) -> Rational {
        Rational { num: self.num * rhs.den + rhs.num * self.den, den: self.den * rhs.den }
    }

    pub open spec fn sub(self, rhs: Rational) -> Rational {
        Rational { num: self.num * rhs.den - rhs.num * self.den, den: self.den * rhs.den }
    }

    pub open spec fn mul(self, rhs: Rational) -> Rational {
        Rational { num: self.num * rhs.num, den: self.den * rhs.den }
    }

    /// Quotient by a positive number.
    pub open spec fn div(self, rhs: Rational) -> Rational
        recommends
            rhs.num > 0,
    {
        Rational { num: self.num * rhs.den, den: self.den * rhs.num }
    }

    pub open spec fn neg(self) -> Rational {
        Rational { num: -self.num, den: self.den }
    }

    /// Absolute value.
    pub open spec fn abs(self) -> Rational {
        if self.num >= 0 {
            self
        } else {
            Rational { num: -self.num, den: self.den }
        }
    }
}

/// An exact fraction of two `i128`s.
#[derive(Clone, Copy, Debug, PartialEq, Eq, Structural)]
pub struct Ratio {
    pub num: i128,
    pub den: i128,
}

impl View for Ratio {
    type V = Rational;

    open spec fn view(&self) -> Rational {
        Rational { num: self.num as int, den: self.den as int }
    }
}

impl Ratio {
    /// The denominator is positive.
    pub open spec fn wf(self) -> bool {
        self.den > 0
    }

    /// The fraction has exactly these two parts.
    pub open spec fn is_fraction(self, num: int, den: int) -> bool {
        self.num == num && self.den == den
    }

    /// The fraction `num / den`.
    pub fn new(num: i128, den: i128) -> (r: Ratio)
        requires
            den > 0,
        ensures
            r.is_fraction(num as int, den as int),
            r.wf(),
    {
        Ratio { num, den }
    }

    /// Zero, as `0 / 1`.
    pub fn zero() -> (r: Ratio)
        ensures
            r.is_fraction(0, 1),
    {
        Ratio { num: 0, den: 1 }
    }

    /// The exact value of a fixed-point number.
    pub fn from_fixed(x: Fixed) -> (r: Ratio)
        ensures
            r.is_fraction(x.raw as int, SCALE as int),
    {
        Ratio { num: x.raw as i128, den: SCALE as i128 }
    }
}

/// Ten times `rem`, divided by `d`: the quotient, which is a single decimal
/// digit, and the remainder.
fn times_ten(rem: u128, d: u128) -> (out: (u128, u128))
    requires
        rem < d,
        d <= 0x7fff_ffff_ffff_ffff_ffff_ffff_ffff_ffff,
    ensures
        out.0 <= 9,
        out.1 < d,
        10 * rem == out.0 * d + out.1,
{
    let mut digit: u128 = 0;
    let mut acc: u128 = 0;
    let mut j: u128 = 0;
    while j < 10
        invariant
            j <= 10,
            digit <= j,
            acc < d,
            rem < d,
            d <= 0x7fff_ffff_ffff_ffff_ffff_ffff_ffff_ffff,
            j * rem == digit * d + acc,
        decreases 10 - j,
    {
        let ghost before = digit * d + acc;
        acc = acc + rem;
        if acc >= d {
            acc = acc - d;
            assert((digit + 1) * d + acc == before + rem) by (nonlinear_arith)
                requires
                    before == digit * d + (acc + d - rem),
            ;
            digit = digit + 1;
        }
        assert((j + 1) * rem == j * rem + rem) by (nonlinear_arith);
        j = j + 1;
    }
    assert(digit <= 9) by (nonlinear_arith)
        requires
            10 * rem == digit * d + acc,
            rem < d,
            acc >= 0,
            digit >= 0,
    ;
    (digit, acc)
}

impl Ratio {
    /// The fixed-point number nearest to the fraction on the side of zero,
    /// saturating.
    pub open spec fn spec_to_fixed(self) -> Fixed
        recommends
            self.wf(),
    {
        Fixed { raw: saturate(trunc_div(self.num * SCALE, self.den as int)) }
    }

    /// The fraction rounded toward zero to nine fractional digits; a value
    /// outside the range of [`Fixed`] goes to the nearest end of the range.
    pub fn to_fixed(self) -> (r: Fixed)
        requires
            self.wf(),
        ensures
            r == self.spec_to_fixed(),
    {
        let negative: bool = self.num < 0;
        let n: u128 = if self.num >= 0 {
            self.num as u128
        } else if self.num == i128::MIN {
            0x8000_0000_0000_0000_0000_0000_0000_0000
        } else {
            (-self.num) as u128
        };
        let d: u128 = self.den as u128;
        let whole: u128 = n / d;
        let ghost exact = (n * SCALE) / (d as int);
        proof {
            vstd::arithmetic::div_mod::lemma_fundamental_div_mod(n as int, d as int);
            assert(d * (n / d) == whole * d) by (nonlinear_arith)
                requires
                    whole == n / d,
            ;
            assert(n * 1 == n);
            // the whole part, scaled, is a lower bound of the scaled quotient
            assert(n * SCALE >= (whole * SCALE) * d) by (nonlinear_arith)
                requires
                    n >= whole * d,
                    d > 0,
            ;
            vstd::arithmetic::div_mod::lemma_div_is_ordered((whole * SCALE) * d, n * SCALE, d as int);
            vstd::arithmetic::div_mod::lemma_div_multiples_vanish(whole * SCALE, d as int);
            assert((whole * SCALE) * d == d * (whole * SCALE)) by (nonlinear_arith);
            assert(exact >= whole * SCALE);
            if self.num >= 0 {
                assert(self.num * SCALE == n * SCALE);
            } else {
                assert(-(self.num * SCALE) == n * SCALE) by (nonlinear_arith)
                    requires
                        n == -self.num,
                ;
            }
            assert(n * SCALE >= 0) by (nonlinear_arith)
                requires
                    n >= 0,
            ;
        }
        if whole > 9_223_372_036 {
            return Fixed { raw: if negative { i64::MIN } else { i64::MAX } };
        }
        let mut quot: u128 = whole;
        let mut rem: u128 = n % d;
        let mut scale: u128 = 1;
        while scale < 1_000_000_000
            invariant
                scale == 1 || scale == 10 || scale == 100 || scale == 1_000 || scale == 10_000
                    || scale == 100_000 || scale == 1_000_000 || scale == 10_000_000 || scale
                    == 100_000_000 || scale == 1_000_000_000,
                rem < d,
                d <= 0x7fff_ffff_ffff_ffff_ffff_ffff_ffff_ffff,
                n * scale == quot * d + rem,
                quot < 9_223_372_037 * scale,
            decreases 1_000_000_000 - scale,
        {
            let (digit, next) = times_ten(rem, d);
            assert(n * (scale * 10) == (quot * 10 + digit) * d + next) by (nonlinear_arith)
                requires
                    n * scale == quot * d + rem,
                    10 * rem == digit * d + next,
            ;
            quot = quot * 10 + digit;
            rem = next;
            scale = scale * 10;
        }
        proof {
            lemma_fundamental_div_mod_converse(n * SCALE, d as int, quot as int, rem as int);
            assert(quot == exact);
        }
        if negative {
            if quot >= 0x8000_0000_0000_0000 {
                Fixed { raw: i64::MIN }
            } else {
                Fixed { raw: -(quot as i64) }
            }
        } else {
            if quot > 0x7fff_ffff_ffff_ffff {
                Fixed { raw: i64::MAX }
            } else {
                Fixed { raw: quot as i64 }
            }
        }
    }
}

impl Fixed {
    /// The number that a fixed-point value stands for.
    pub open spec fn value(self) -> Rational {
        Rational { num: self.raw as int, den: SCALE as int }
    }
}

} // verus!
