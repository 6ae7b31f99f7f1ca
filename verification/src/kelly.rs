//! The Kelly fraction, in exact arithmetic.

use vstd::prelude::*;
use crate::model::RiskError;
use crate::ratio::Ratio;
use crate::ratio::Rational;

verus! {

/// The Kelly formula: the win probability, less the loss probability over
/// the win/loss ratio, all times the multiplier.
pub open spec fn kelly_value(win_prob: Rational, win_loss_ratio: Rational, multiplier: Rational)
    -> Rational {
    win_prob.sub(Rational::one().sub(win_prob).div(win_loss_ratio)).mul(multiplier)
}

/// The probability lies strictly between 0 and 1 and the ratio is positive.
pub open spec fn kelly_defined(win_prob: Ratio, win_loss_ratio: Ratio) -> bool {
    0 < win_prob.num < win_prob.den && win_loss_ratio.num > 0
}

/// Numerator of the fraction before the multiplier is applied, over the
/// denominator `win_prob.den * win_loss_ratio.num`.
pub open spec fn kelly_edge(win_prob: Ratio, win_loss_ratio: Ratio) -> int {
    win_prob.num * win_loss_ratio.num - (win_prob.den - win_prob.num) * win_loss_ratio.den
}

/// The parts of the exact result fit in `i128`.
pub open spec fn kelly_fits(win_prob: Ratio, win_loss_ratio: Ratio, multiplier: Ratio) -> bool {
    &&& win_prob.den * win_loss_ratio.num * multiplier.den <= i128::MAX
    &&& (win_prob.den - win_prob.num) * win_loss_ratio.den <= i128::MAX
    &&& -i128::MAX <= kelly_edge(win_prob, win_loss_ratio) * multiplier.num <= i128::MAX
}

/// Whether [`calculate_kelly_criterion`] may be called on these inputs: it
/// may unless they are valid and the exact result does not fit.
pub fn kelly_is_representable(win_prob: Ratio, win_loss_ratio: Ratio, multiplier: Ratio) -> (ok:
    bool)
    requires
        win_prob.wf(),
        win_loss_ratio.wf(),
        multiplier.wf(),
    ensures
        ok == (kelly_defined(win_prob, win_loss_ratio) ==> kelly_fits(
            win_prob,
            win_loss_ratio,
            multiplier,
        )),
{
    let a: i128 = win_prob.num;
    let b: i128 = win_prob.den;
    let c: i128 = win_loss_ratio.num;
    let d: i128 = win_loss_ratio.den;
    let e: i128 = multiplier.num;
    let g: i128 = multiplier.den;
    if a <= 0 || a >= b || c <= 0 {
        return true;
    }
    let bc: i128 = match b.checked_mul(c) {
        Some(v) => v,
        None => {
            assert(b * c * g >= b * c) by (nonlinear_arith)
                requires
                    b * c > 0,
                    g >= 1,
            ;
            return false;
        },
    };
    if bc.checked_mul(g).is_none() {
        return false;
    }
    assert(0 < a * c < b * c) by (nonlinear_arith)
        requires
            0 < a < b,
            c > 0,
    ;
    let ac: i128 = a * c;
    let lose: i128 = match (b - a).checked_mul(d) {
        Some(v) => v,
        None => {
            assert((b - a) * d > 0) by (nonlinear_arith)
                requires
                    b - a > 0,
                    d > 0,
            ;
            return false;
        },
    };
    assert((b - a) * d > 0) by (nonlinear_arith)
        requires
            b - a > 0,
            d > 0,
    ;
    let edge: i128 = ac - lose;
    match edge.checked_mul(e) {
        Some(v) => v != i128::MIN,
        None => false,
    }
}

/// The fraction of capital that the Kelly criterion recommends, scaled by
/// `fractional_multiplier`. The result is exact and is not clamped: a
/// negative fraction says that the record shows no edge.
///
/// Fails with `InvalidProbability` unless the win probability lies strictly
/// between 0 and 1, and otherwise with `InvalidRatio` unless the win/loss
/// ratio is positive.
pub fn calculate_kelly_criterion(
    win_prob: Ratio,
    win_loss_ratio: Ratio,
    fractional_multiplier: Ratio,
) -> (res: Result<Ratio, RiskError>)
    requires
        win_prob.wf(),
        win_loss_ratio.wf(),
        fractional_multiplier.wf(),
        kelly_defined(win_prob, win_loss_ratio) ==> kelly_fits(
            win_prob,
            win_loss_ratio,
            fractional_multiplier,
        ),
    ensures
        (win_prob.num <= 0 || win_prob.num >= win_prob.den) <==> res == Err::<Ratio, RiskError>(
            RiskError::InvalidProbability,
        ),
        (0 < win_prob.num < win_prob.den && win_loss_ratio.num <= 0) <==> res == Err::<
            Ratio,
            RiskError,
        >(RiskError::InvalidRatio),
        kelly_defined(win_prob, win_loss_ratio) <==> res is Ok,
        res matches Ok(k) ==> {
            &&& k.wf()
            &&& k.is_fraction(
                kelly_edge(win_prob, win_loss_ratio) * fractional_multiplier.num,
                win_prob.den * win_loss_ratio.num * fractional_multiplier.den,
            )
            &&& k@.eqv(kelly_value(win_prob@, win_loss_ratio@, fractional_multiplier@))
        },
{
    let a: i128 = win_prob.num;
    let b: i128 = win_prob.den;
    let c: i128 = win_loss_ratio.num;
    let d: i128 = win_loss_ratio.den;
    let e: i128 = fractional_multiplier.num;
    let g: i128 = fractional_multiplier.den;
    if a <= 0 || a >= b {
        return Err(RiskError::InvalidProbability);
    }
    if c <= 0 {
        return Err(RiskError::InvalidRatio);
    }
    proof {
        assert(0 < a * c < b * c && b * c <= b * c * g && (b - a) * d > 0 && b * c * g > 0)
            by (nonlinear_arith)
            requires
                0 < a < b,
                c > 0,
                g >= 1,
                d > 0,
        ;
        lemma_kelly_value(a as int, b as int, c as int, d as int, e as int, g as int);
    }
    let edge: i128 = a * c - (b - a) * d;
    Ok(Ratio { num: edge * e, den: b * c * g })
}

/// The fraction `(a c - (b - a) d) e / (b c g)` is the Kelly formula applied
/// to `a / b`, `c / d` and `e / g`.
pub proof fn lemma_kelly_value(a: int, b: int, c: int, d: int, e: int, g: int)
    ensures
        (Rational { num: (a * c - (b - a) * d) * e, den: b * c * g }).eqv(
            kelly_value(
                Rational { num: a, den: b },
                Rational { num: c, den: d },
                Rational { num: e, den: g },
            ),
        ),
{
    let edge = a * c - (b - a) * d;
    let bc = b * c;
    // the formula, step by step
    let loss_prob = Rational::one().sub(Rational { num: a, den: b });
    assert(loss_prob == Rational { num: b - a, den: b }) by {
        assert(1 * b - a * 1 == b - a);
        assert(1 * b == b);
    }
    let scaled = loss_prob.div(Rational { num: c, den: d });
    assert(scaled == Rational { num: (b - a) * d, den: bc });
    let raw = (Rational { num: a, den: b }).sub(scaled);
    assert(raw == Rational { num: a * bc - ((b - a) * d) * b, den: b * bc });
    assert(a * bc - ((b - a) * d) * b == edge * b) by (nonlinear_arith)
        requires
            edge == a * c - (b - a) * d,
            bc == b * c,
    ;
    let full = raw.mul(Rational { num: e, den: g });
    assert(full == Rational { num: (edge * b) * e, den: (b * bc) * g });
    assert((edge * e) * ((b * bc) * g) == ((edge * b) * e) * (bc * g)) by (nonlinear_arith);
}

} // verus!
