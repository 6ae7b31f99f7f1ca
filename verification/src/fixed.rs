//! Signed fixed-point decimals with nine fractional digits.
//!
//! Every amount, price, percentage and fraction that enters the engine is a
//! [`Fixed`]: an `i64` count of billionths. Sums and differences saturate at
//! the ends of the `i64` range; products and quotients are rounded toward
//! zero to the nearest billionth and then saturate in the same way. Nothing
//! here can overflow, divide by zero or panic.

use vstd::prelude::*;
use vstd::arithmetic::div_mod::lemma_fundamental_div_mod;
use vstd::arithmetic::div_mod::lemma_mod_bound;

verus! {

/// Number of raw units in one whole unit.
pub const SCALE: i64 = 1_000_000_000;

/// Quotient of `a` by a non-zero `b`, rounded toward zero.
pub open spec fn trunc_div(a: int, b: int) -> int
    recommends
        b != 0,
{
    if b > 0 {
        if a >= 0 {
            a / b
        } else {
            -((-a) / b)
        }
    } else {
        if a >= 0 {
            -(a / (-b))
        } else {
            (-a) / (-b)
        }
    }
}

/// The `i64` nearest to `v`.
pub open spec fn saturate(v: int) -> i64 {
    if v > i64::MAX {
        i64::MAX
    } else if v < i64::MIN {
        i64::MIN
    } else {
        v as i64
    }
}

/// A decimal number stored as a count of billionths.
#[derive(Clone, Copy, Debug, PartialEq, Eq, Structural)]
pub struct Fixed {
    pub raw: i64,
}

fn saturate_exec(v: i128) -> (r: i64)
    ensures
        r == saturate(v as int),
{
    if v > i64::MAX as i128 {
        i64::MAX
    } else if v < i64::MIN as i128 {
        i64::MIN
    } else {
        v as i64
    }
}

impl Fixed {
    /// The number zero.
    pub open spec fn spec_zero() -> Fixed {
        Fixed { raw: 0 }
    }

    /// The number one.
    pub open spec fn spec_one() -> Fixed {
        Fixed { raw: SCALE }
    }

    /// The whole number `v`.
    pub open spec fn spec_from_int(v: i32) -> Fixed {
        Fixed { raw: (v * SCALE) as i64 }
    }

    /// Saturating sum.
    pub open spec fn spec_add(self, rhs: Fixed) -> Fixed {
        Fixed { raw: saturate(self.raw + rhs.raw) }
    }

    /// Saturating difference.
    pub open spec fn spec_sub(self, rhs: Fixed) -> Fixed {
        Fixed { raw: saturate(self.raw - rhs.raw) }
    }

    /// Saturating negation.
    pub open spec fn spec_neg(self) -> Fixed {
        Fixed { raw: saturate(-self.raw) }
    }

    /// Saturating absolute value.
    pub open spec fn spec_abs(self) -> Fixed {
        if self.raw >= 0 {
            self
        } else {
            self.spec_neg()
        }
    }

    /// Product, rounded toward zero, saturating.
    pub open spec fn spec_mul(self, rhs: Fixed) -> Fixed {
        Fixed { raw: saturate(trunc_div(self.raw * rhs.raw, SCALE as int)) }
    }

    /// Quotient by a non-zero divisor, rounded toward zero, saturating.
    pub open spec fn spec_div(self, rhs: Fixed) -> Fixed
        recommends
            rhs.raw != 0,
    {
        Fixed { raw: saturate(trunc_div(self.raw * SCALE, rhs.raw as int)) }
    }

    pub fn zero() -> (r: Fixed)
        ensures
            r == Fixed::spec_zero(),
    {
        Fixed { raw: 0 }
    }

    pub fn one() -> (r: Fixed)
        ensures
            r == Fixed::spec_one(),
    {
        Fixed { raw: SCALE }
    }

    /// The number with the given count of billionths.
    pub fn from_raw(raw: i64) -> (r: Fixed)
        ensures
            r.raw == raw,
    {
        Fixed { raw }
    }

    /// The whole number `v`, which always fits.
    pub fn from_int(v: i32) -> (r: Fixed)
        ensures
            r == Fixed::spec_from_int(v),
            r.raw == v * SCALE,
    {
        let wide: i64 = v as i64;
        assert(-0x8000_0000 * 1_000_000_000 <= wide * 1_000_000_000 <= 0x7fff_ffff * 1_000_000_000)
            by (nonlinear_arith)
            requires
                -0x8000_0000 <= wide <= 0x7fff_ffff,
        ;
        Fixed { raw: wide * SCALE }
    }

    pub fn add(self, rhs: Fixed) -> (r: Fixed)
        ensures
            r == self.spec_add(rhs),
    {
        Fixed { raw: saturate_exec(self.raw as i128 + rhs.raw as i128) }
    }

    pub fn sub(self, rhs: Fixed) -> (r: Fixed)
        ensures
            r == self.spec_sub(rhs),
    {
        Fixed { raw: saturate_exec(self.raw as i128 - rhs.raw as i128) }
    }

    pub fn neg(self) -> (r: Fixed)
        ensures
            r == self.spec_neg(),
    {
        Fixed { raw: saturate_exec(-(self.raw as i128)) }
    }

    pub fn abs(self) -> (r: Fixed)
        ensures
            r == self.spec_abs(),
    {
        if self.raw >= 0 {
            self
        } else {
            self.neg()
        }
    }

    pub fn mul(self, rhs: Fixed) -> (r: Fixed)
        ensures
            r == self.spec_mul(rhs),
    {
        let a: i128 = self.raw as i128;
        let b: i128 = rhs.raw as i128;
        assert(-0x4000_0000_0000_0000_0000_0000_0000_0000 <= a * b
            <= 0x4000_0000_0000_0000_0000_0000_0000_0000) by (nonlinear_arith)
            requires
                -0x8000_0000_0000_0000 <= a <= 0x8000_0000_0000_0000,
                -0x8000_0000_0000_0000 <= b <= 0x8000_0000_0000_0000,
        ;
        let product: i128 = a * b;
        Fixed { raw: saturate_exec(product / (SCALE as i128)) }
    }

    pub fn div(self, rhs: Fixed) -> (r: Fixed)
        requires
            rhs.raw != 0,
        ensures
            r == self.spec_div(rhs),
    {
        let a: i128 = self.raw as i128;
        assert(-0x8000_0000_0000_0000 * 1_000_000_000 <= a * 1_000_000_000
            <= 0x8000_0000_0000_0000 * 1_000_000_000) by (nonlinear_arith)
            requires
                -0x8000_0000_0000_0000 <= a <= 0x8000_0000_0000_0000,
        ;
        let scaled: i128 = a * (SCALE as i128);
        let divisor: i128 = rhs.raw as i128;
        if divisor > 0 {
            Fixed { raw: saturate_exec(scaled / divisor) }
        } else {
            Fixed { raw: saturate_exec((-scaled) / (-divisor)) }
        }
    }
}

/// Rounding toward zero moves a quotient by less than one, toward zero:
/// `trunc_div(a, b) * b` lies between zero and `a`, less than `|b|` away
/// from `a`.
pub proof fn lemma_trunc_div(a: int, b: int)
    requires
        b != 0,
    ensures
        a >= 0 ==> a - (if b > 0 { b } else { -b }) < trunc_div(a, b) * b <= a,
        a <= 0 ==> a <= trunc_div(a, b) * b < a + (if b > 0 { b } else { -b }),
{
    let m = if b > 0 { b } else { -b };
    let n = if a >= 0 { a } else { -a };
    lemma_fundamental_div_mod(n, m);
    lemma_mod_bound(n, m);
    let q = n / m;
    assert(trunc_div(a, b) == if (a >= 0) == (b > 0) { q } else { -q });
    assert(q * b == if b > 0 { m * q } else { -(m * q) }) by (nonlinear_arith)
        requires
            m == if b > 0 { b } else { -b },
    ;
    assert((-q) * b == -(q * b)) by (nonlinear_arith);
}

impl Fixed {
    /// A product that stays in range is off by less than one billionth,
    /// toward zero: in raw units, `p * SCALE` lies between zero and
    /// `self.raw * rhs.raw`, less than `SCALE` away from it.
    pub proof fn lemma_mul_rounding(self, rhs: Fixed)
        requires
            i64::MIN <= trunc_div(self.raw * rhs.raw, SCALE as int) <= i64::MAX,
        ensures
            ({
                let exact = self.raw * rhs.raw;
                let p = self.spec_mul(rhs).raw;
                &&& exact >= 0 ==> exact - SCALE < p * SCALE <= exact
                &&& exact <= 0 ==> exact <= p * SCALE < exact + SCALE
            }),
    {
        lemma_trunc_div(self.raw * rhs.raw, SCALE as int);
    }

    /// A quotient that stays in range is off by less than one billionth,
    /// toward zero: in raw units, `q * rhs.raw` lies between zero and
    /// `self.raw * SCALE`, less than `|rhs.raw|` away from it.
    pub proof fn lemma_div_rounding(self, rhs: Fixed)
        requires
            rhs.raw != 0,
            i64::MIN <= trunc_div(self.raw * SCALE, rhs.raw as int) <= i64::MAX,
        ensures
            ({
                let exact = self.raw * SCALE;
                let q = self.spec_div(rhs).raw;
                let m = if rhs.raw > 0 { rhs.raw as int } else { -rhs.raw };
                &&& exact >= 0 ==> exact - m < q * rhs.raw <= exact
                &&& exact <= 0 ==> exact <= q * rhs.raw < exact + m
            }),
    {
        lemma_trunc_div(self.raw * SCALE, rhs.raw as int);
    }
}

} // verus!
