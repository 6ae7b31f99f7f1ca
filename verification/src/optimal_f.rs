//! Optimal-f: the risk fraction that maximises terminal wealth relative.
//!
//! Every profit is first divided by the largest loss and negated, which
//! gives the yield of the trade per unit of that loss. For a fraction `f`
//! the terminal wealth relative is the product of `1 + f * r` over these
//! yields `r`. The search has two phases: a sweep over a fixed grid of
//! fractions, and a fixed-step gradient ascent that starts from the best
//! grid point. All arithmetic is the saturating fixed-point arithmetic of
//! [`Fixed`], applied in input order.

use vstd::prelude::*;
use crate::fixed::Fixed;
use crate::model::profit_seq;
use crate::model::profit_values;
use crate::model::RiskError;
use crate::model::Trade;

verus! {

/// Number of fractions in the grid.
pub const GRID_POINTS: u32 = 1000;

/// Distance between two neighbouring grid fractions: 0.0001.
pub const GRID_STEP: i64 = 100_000;

/// Step length of the gradient ascent: 0.001.
pub const LEARNING_RATE: i64 = 1_000_000;

/// The least raw profit, or zero where none is negative.
pub open spec fn lowest_raw(profits: Seq<Fixed>) -> int
    decreases profits.len(),
{
    if profits.len() == 0 {
        0
    } else if profits.last().raw < lowest_raw(profits.drop_last()) {
        profits.last().raw as int
    } else {
        lowest_raw(profits.drop_last())
    }
}

/// Magnitude of the most negative profit; zero where no trade loses.
pub open spec fn largest_loss(profits: Seq<Fixed>) -> Fixed {
    (Fixed { raw: lowest_raw(profits) as i64 }).spec_neg()
}

/// Each profit negated and divided by `loss`.
pub open spec fn yields_per_loss(profits: Seq<Fixed>, loss: Fixed) -> Seq<Fixed> {
    profits.map_values(|p: Fixed| p.spec_neg().spec_div(loss))
}

/// The factor by which one trade with yield `r` multiplies wealth at
/// fraction `f`.
pub open spec fn growth_factor(r: Fixed, f: Fixed) -> Fixed {
    Fixed::spec_one().spec_add(f.spec_mul(r))
}

/// Terminal wealth relative at fraction `f`: the product of the growth
/// factors, taken in input order.
pub open spec fn twr(yields: Seq<Fixed>, f: Fixed) -> Fixed
    decreases yields.len(),
{
    if yields.len() == 0 {
        Fixed::spec_one()
    } else {
        twr(yields.drop_last(), f).spec_mul(growth_factor(yields.last(), f))
    }
}

/// The sum of `r / (1 + f * r)` over the yields whose growth factor is
/// positive.
pub open spec fn gradient_sum(yields: Seq<Fixed>, f: Fixed) -> Fixed
    decreases yields.len(),
{
    if yields.len() == 0 {
        Fixed::spec_zero()
    } else {
        let rest = gradient_sum(yields.drop_last(), f);
        let factor = growth_factor(yields.last(), f);
        if factor.raw > 0 {
            rest.spec_add(yields.last().spec_div(factor))
        } else {
            rest
        }
    }
}

/// The `i`-th fraction of the grid: `i / 10000`.
pub open spec fn grid_point(i: int) -> Fixed {
    Fixed { raw: (i * GRID_STEP) as i64 }
}

/// Index of the first grid point, among the first `n`, at which terminal
/// wealth relative is greatest.
pub open spec fn grid_argmax(yields: Seq<Fixed>, n: int) -> int
    decreases n,
{
    if n <= 1 {
        0
    } else {
        let best = grid_argmax(yields, n - 1);
        if twr(yields, grid_point(n - 1)).raw > twr(yields, grid_point(best)).raw {
            n - 1
        } else {
            best
        }
    }
}

/// `best` is the first grid point at which terminal wealth relative is
/// greatest.
pub open spec fn is_grid_best(yields: Seq<Fixed>, best: int) -> bool {
    &&& 0 <= best < GRID_POINTS
    &&& forall|j: int|
        0 <= j < GRID_POINTS ==> (#[trigger] twr(yields, grid_point(j))).raw <= twr(
            yields,
            grid_point(best),
        ).raw
    &&& forall|j: int|
        0 <= j < best ==> (#[trigger] twr(yields, grid_point(j))).raw < twr(
            yields,
            grid_point(best),
        ).raw
}

/// The fraction one ascent step away from `f`.
pub open spec fn ascent_step(yields: Seq<Fixed>, f: Fixed) -> Fixed {
    let gradient = gradient_sum(yields, f).spec_mul(twr(yields, f));
    f.spec_add((Fixed { raw: LEARNING_RATE }).spec_mul(gradient))
}

/// The fraction that the ascent reaches from `f` within `iterations` steps.
///
/// A step to a negative fraction is not taken and ends the ascent. A step
/// that changes terminal wealth relative by less than `tolerance` is taken
/// and ends the ascent. Any other step is taken if it raises terminal
/// wealth relative, and otherwise ends the ascent.
pub open spec fn refine(yields: Seq<Fixed>, f: Fixed, iterations: nat, tolerance: Fixed) -> Fixed
    decreases iterations,
{
    if iterations == 0 {
        f
    } else {
        let next = ascent_step(yields, f);
        let before = twr(yields, f);
        let after = twr(yields, next);
        if next.raw < 0 {
            f
        } else if after.spec_sub(before).spec_abs().raw < tolerance.raw {
            next
        } else if after.raw > before.raw {
            refine(yields, next, (iterations - 1) as nat, tolerance)
        } else {
            f
        }
    }
}

/// The optimal fraction for a non-empty profit sequence.
pub open spec fn optimal_f(profits: Seq<Fixed>, max_iterations: nat, tolerance: Fixed) -> Fixed {
    let loss = largest_loss(profits);
    if loss.raw == 0 {
        Fixed::spec_zero()
    } else {
        let yields = yields_per_loss(profits, loss);
        refine(
            yields,
            grid_point(grid_argmax(yields, GRID_POINTS as int)),
            max_iterations,
            tolerance,
        )
    }
}

/// Magnitude of the most negative profit; zero where no trade loses.
pub fn largest_loss_of(profits: &Vec<Fixed>) -> (loss: Fixed)
    ensures
        loss == largest_loss(profits@),
{
    let mut lowest: i64 = 0;
    let mut i: usize = 0;
    assert(profits@.take(0) =~= Seq::<Fixed>::empty());
    while i < profits.len()
        invariant
            i <= profits.len(),
            lowest == lowest_raw(profits@.take(i as int)),
        decreases profits.len() - i,
    {
        assert(profits@.take(i + 1).drop_last() =~= profits@.take(i as int));
        if profits[i].raw < lowest {
            lowest = profits[i].raw;
        }
        i += 1;
    }
    assert(profits@.take(profits@.len() as int) =~= profits@);
    Fixed::from_raw(lowest).neg()
}

/// Each profit negated and divided by `loss`.
pub fn scaled_yields(profits: &Vec<Fixed>, loss: Fixed) -> (r: Vec<Fixed>)
    requires
        loss.raw != 0,
    ensures
        r@ == yields_per_loss(profits@, loss),
{
    let mut r: Vec<Fixed> = Vec::new();
    let mut i: usize = 0;
    while i < profits.len()
        invariant
            i <= profits.len(),
            loss.raw != 0,
            r@ == yields_per_loss(profits@, loss).take(i as int),
        decreases profits.len() - i,
    {
        r.push(profits[i].neg().div(loss));
        assert(r@ =~= yields_per_loss(profits@, loss).take(i + 1));
        i += 1;
    }
    assert(r@ =~= yields_per_loss(profits@, loss));
    r
}

/// Terminal wealth relative at fraction `f`.
pub fn terminal_wealth(yields: &Vec<Fixed>, f: Fixed) -> (w: Fixed)
    ensures
        w == twr(yields@, f),
{
    let mut w: Fixed = Fixed::one();
    let mut i: usize = 0;
    assert(yields@.take(0) =~= Seq::<Fixed>::empty());
    while i < yields.len()
        invariant
            i <= yields.len(),
            w == twr(yields@.take(i as int), f),
        decreases yields.len() - i,
    {
        assert(yields@.take(i + 1).drop_last() =~= yields@.take(i as int));
        let factor = Fixed::one().add(f.mul(yields[i]));
        w = w.mul(factor);
        i += 1;
    }
    assert(yields@.take(yields@.len() as int) =~= yields@);
    w
}

/// The sum of `r / (1 + f * r)` over the yields whose growth factor is
/// positive.
pub fn gradient_sum_of(yields: &Vec<Fixed>, f: Fixed) -> (g: Fixed)
    ensures
        g == gradient_sum(yields@, f),
{
    let mut g: Fixed = Fixed::zero();
    let mut i: usize = 0;
    assert(yields@.take(0) =~= Seq::<Fixed>::empty());
    while i < yields.len()
        invariant
            i <= yields.len(),
            g == gradient_sum(yields@.take(i as int), f),
        decreases yields.len() - i,
    {
        assert(yields@.take(i + 1).drop_last() =~= yields@.take(i as int));
        let factor = Fixed::one().add(f.mul(yields[i]));
        if factor.raw > 0 {
            g = g.add(yields[i].div(factor));
        }
        i += 1;
    }
    assert(yields@.take(yields@.len() as int) =~= yields@);
    g
}

/// The first `n` grid points hold no better point than `grid_argmax`, and
/// none as good before it.
pub proof fn lemma_grid_argmax(yields: Seq<Fixed>, n: int)
    requires
        1 <= n,
    ensures
        0 <= grid_argmax(yields, n) < n,
        forall|j: int|
            0 <= j < n ==> (#[trigger] twr(yields, grid_point(j))).raw <= twr(
                yields,
                grid_point(grid_argmax(yields, n)),
            ).raw,
        forall|j: int|
            0 <= j < grid_argmax(yields, n) ==> (#[trigger] twr(yields, grid_point(j))).raw < twr(
                yields,
                grid_point(grid_argmax(yields, n)),
            ).raw,
    decreases n,
{
    if n > 1 {
        lemma_grid_argmax(yields, n - 1);
    }
}

/// Index of the first grid fraction at which terminal wealth relative is
/// greatest.
pub fn grid_search(yields: &Vec<Fixed>) -> (best: u32)
    ensures
        best == grid_argmax(yields@, GRID_POINTS as int),
        is_grid_best(yields@, best as int),
{
    let mut best: u32 = 0;
    let mut best_twr: Fixed = terminal_wealth(yields, Fixed::from_raw(0));
    let mut i: u32 = 1;
    while i < GRID_POINTS
        invariant
            1 <= i <= GRID_POINTS,
            best == grid_argmax(yields@, i as int),
            best < i,
            best_twr == twr(yields@, grid_point(best as int)),
        decreases GRID_POINTS - i,
    {
        let f = Fixed::from_raw((i as i64) * GRID_STEP);
        let w = terminal_wealth(yields, f);
        if w.raw > best_twr.raw {
            best = i;
            best_twr = w;
        }
        i += 1;
    }
    proof {
        lemma_grid_argmax(yields@, GRID_POINTS as int);
    }
    best
}

/// The `i`-th fraction of the grid.
pub fn grid_fraction(i: u32) -> (f: Fixed)
    requires
        i < GRID_POINTS,
    ensures
        f == grid_point(i as int),
{
    Fixed::from_raw((i as i64) * GRID_STEP)
}

/// Gradient ascent on terminal wealth relative, from `start`, for at most
/// `max_iterations` steps.
pub fn refine_fraction(yields: &Vec<Fixed>, start: Fixed, max_iterations: usize, tolerance: Fixed)
    -> (f: Fixed)
    ensures
        f == refine(yields@, start, max_iterations as nat, tolerance),
{
    let mut f: Fixed = start;
    let mut remaining: usize = max_iterations;
    while remaining > 0
        invariant
            refine(yields@, f, remaining as nat, tolerance) == refine(
                yields@,
                start,
                max_iterations as nat,
                tolerance,
            ),
        decreases remaining,
    {
        let before = terminal_wealth(yields, f);
        let gradient = gradient_sum_of(yields, f).mul(before);
        let next = f.add(Fixed::from_raw(LEARNING_RATE).mul(gradient));
        if next.raw < 0 {
            return f;
        }
        let after = terminal_wealth(yields, next);
        if after.sub(before).abs().raw < tolerance.raw {
            return next;
        }
        if after.raw > before.raw {
            f = next;
            remaining -= 1;
        } else {
            return f;
        }
    }
    f
}

/// The risk fraction that maximises terminal wealth relative: zero where no
/// trade loses, and otherwise the best grid fraction refined by gradient
/// ascent.
///
/// Fails with `EmptyInput` exactly when `trades` is empty.
pub fn calculate_optimal_f(trades: &Vec<Trade>, max_iterations: usize, tolerance: Fixed) -> (res:
    Result<Fixed, RiskError>)
    ensures
        trades@.len() == 0 <==> res == Err::<Fixed, RiskError>(RiskError::EmptyInput),
        trades@.len() > 0 <==> res is Ok,
        res matches Ok(f) ==> f == optimal_f(
            profit_seq(trades@),
            max_iterations as nat,
            tolerance,
        ),
        res matches Ok(f) ==> f.raw >= 0,
        trades@.len() > 0 && (forall|i: int| 0 <= i < trades@.len() ==> trades@[i].profit.raw >= 0)
            ==> res == Ok::<Fixed, RiskError>(Fixed::spec_zero()),
{
    proof {
        lemma_optimal_f_nonnegative(profit_seq(trades@), max_iterations as nat, tolerance);
        if forall|i: int| 0 <= i < trades@.len() ==> trades@[i].profit.raw >= 0 {
            lemma_no_loss_gives_zero(profit_seq(trades@), max_iterations as nat, tolerance);
        }
    }
    if trades.len() == 0 {
        return Err(RiskError::EmptyInput);
    }
    let profits = profit_values(trades);
    let loss = largest_loss_of(&profits);
    if loss.raw == 0 {
        return Ok(Fixed::zero());
    }
    let yields = scaled_yields(&profits, loss);
    let best = grid_search(&yields);
    Ok(refine_fraction(&yields, grid_fraction(best), max_iterations, tolerance))
}

/// The least raw profit is never positive, bounds every profit from below,
/// is zero exactly when no profit is negative, and is otherwise one of the
/// profits.
pub proof fn lemma_lowest_raw(profits: Seq<Fixed>)
    ensures
        i64::MIN <= lowest_raw(profits) <= 0,
        forall|i: int| 0 <= i < profits.len() ==> lowest_raw(profits) <= (#[trigger] profits[i]).raw,
        lowest_raw(profits) == 0 <==> (forall|i: int|
            0 <= i < profits.len() ==> (#[trigger] profits[i]).raw >= 0),
        lowest_raw(profits) < 0 ==> exists|i: int|
            0 <= i < profits.len() && (#[trigger] profits[i]).raw == lowest_raw(profits),
    decreases profits.len(),
{
    if profits.len() > 0 {
        let rest = profits.drop_last();
        lemma_lowest_raw(rest);
        assert forall|i: int| 0 <= i < profits.len() implies lowest_raw(profits) <= (
        #[trigger] profits[i]).raw by {
            if i < rest.len() {
                assert(rest[i] == profits[i]);
            }
        }
        if lowest_raw(profits) == 0 {
            assert forall|i: int| 0 <= i < profits.len() implies (#[trigger] profits[i]).raw
                >= 0 by {}
        }
        if lowest_raw(profits) < 0 {
            if profits.last().raw < lowest_raw(rest) {
                assert(profits[profits.len() - 1].raw == lowest_raw(profits));
            } else {
                let i = choose|i: int|
                    0 <= i < rest.len() && (#[trigger] rest[i]).raw == lowest_raw(rest);
                assert(profits[i] == rest[i]);
            }
        }
    }
}

/// The largest loss is zero exactly when no trade loses, and otherwise it is
/// the magnitude of the most negative profit, held to the `i64` range.
pub proof fn lemma_largest_loss(profits: Seq<Fixed>)
    ensures
        largest_loss(profits).raw >= 0,
        largest_loss(profits).raw == 0 <==> (forall|i: int|
            0 <= i < profits.len() ==> (#[trigger] profits[i]).raw >= 0),
        forall|i: int|
            0 <= i < profits.len() ==> (#[trigger] profits[i]).spec_neg().raw <= largest_loss(
                profits,
            ).raw,
        largest_loss(profits).raw > 0 ==> exists|i: int|
            0 <= i < profits.len() && (#[trigger] profits[i]).spec_neg() == largest_loss(profits),
{
    lemma_lowest_raw(profits);
    if largest_loss(profits).raw > 0 {
        let i = choose|i: int|
            0 <= i < profits.len() && (#[trigger] profits[i]).raw == lowest_raw(profits);
        assert(profits[i].spec_neg() == largest_loss(profits));
    }
}

/// A history without a losing trade has the optimal fraction zero.
pub proof fn lemma_no_loss_gives_zero(profits: Seq<Fixed>, max_iterations: nat, tolerance: Fixed)
    requires
        forall|i: int| 0 <= i < profits.len() ==> (#[trigger] profits[i]).raw >= 0,
    ensures
        optimal_f(profits, max_iterations, tolerance) == Fixed::spec_zero(),
{
    lemma_largest_loss(profits);
}

/// Risking nothing leaves wealth unchanged: terminal wealth relative at the
/// fraction zero is exactly one.
pub proof fn lemma_twr_at_zero(yields: Seq<Fixed>)
    ensures
        twr(yields, Fixed::spec_zero()) == Fixed::spec_one(),
    decreases yields.len(),
{
    if yields.len() > 0 {
        lemma_twr_at_zero(yields.drop_last());
        let r = yields.last();
        assert(0 * r.raw == 0);
        assert(growth_factor(r, Fixed::spec_zero()) == Fixed::spec_one());
    }
}

/// The best grid fraction does at least as well as risking nothing.
pub proof fn lemma_grid_best_keeps_wealth(yields: Seq<Fixed>)
    ensures
        twr(yields, grid_point(grid_argmax(yields, GRID_POINTS as int))).raw >= Fixed::spec_one().raw,
{
    lemma_grid_argmax(yields, GRID_POINTS as int);
    lemma_twr_at_zero(yields);
    assert(grid_point(0) == Fixed::spec_zero());
    assert(twr(yields, grid_point(0)).raw <= twr(
        yields,
        grid_point(grid_argmax(yields, GRID_POINTS as int)),
    ).raw);
}

/// The ascent never leaves the non-negative fractions.
pub proof fn lemma_refine_nonnegative(
    yields: Seq<Fixed>,
    f: Fixed,
    iterations: nat,
    tolerance: Fixed,
)
    requires
        f.raw >= 0,
    ensures
        refine(yields, f, iterations, tolerance).raw >= 0,
    decreases iterations,
{
    if iterations > 0 {
        let next = ascent_step(yields, f);
        if next.raw >= 0 {
            lemma_refine_nonnegative(yields, next, (iterations - 1) as nat, tolerance);
        }
    }
}

/// The ascent gives up less than the tolerance: terminal wealth relative at
/// the fraction it reaches is above that at its start less the tolerance,
/// and not below that at its start where the tolerance is not positive.
pub proof fn lemma_refine_keeps_wealth(
    yields: Seq<Fixed>,
    f: Fixed,
    iterations: nat,
    tolerance: Fixed,
)
    ensures
        tolerance.raw > 0 ==> twr(yields, refine(yields, f, iterations, tolerance)).raw > twr(
            yields,
            f,
        ).raw - tolerance.raw,
        tolerance.raw <= 0 ==> twr(yields, refine(yields, f, iterations, tolerance)).raw >= twr(
            yields,
            f,
        ).raw,
    decreases iterations,
{
    if iterations > 0 {
        let next = ascent_step(yields, f);
        let before = twr(yields, f);
        let after = twr(yields, next);
        if next.raw >= 0 && !(after.spec_sub(before).spec_abs().raw < tolerance.raw) && after.raw
            > before.raw {
            lemma_refine_keeps_wealth(yields, next, (iterations - 1) as nat, tolerance);
        }
    }
}

/// The optimal fraction is never negative.
pub proof fn lemma_optimal_f_nonnegative(profits: Seq<Fixed>, max_iterations: nat, tolerance: Fixed)
    ensures
        optimal_f(profits, max_iterations, tolerance).raw >= 0,
{
    let loss = largest_loss(profits);
    if loss.raw != 0 {
        let yields = yields_per_loss(profits, loss);
        lemma_grid_argmax(yields, GRID_POINTS as int);
        let best = grid_argmax(yields, GRID_POINTS as int);
        assert(0 <= best * GRID_STEP <= 999 * GRID_STEP) by (nonlinear_arith)
            requires
                0 <= best < 1000,
                GRID_STEP == 100_000,
        ;
        lemma_refine_nonnegative(yields, grid_point(best), max_iterations, tolerance);
    }
}

/// At the optimal fraction of a history with a losing trade, terminal
/// wealth relative is above one less the tolerance, and at least one where
/// the tolerance is not positive.
pub proof fn lemma_optimal_f_keeps_wealth(profits: Seq<Fixed>, max_iterations: nat, tolerance: Fixed)
    requires
        largest_loss(profits).raw != 0,
    ensures
        ({
            let yields = yields_per_loss(profits, largest_loss(profits));
            let wealth = twr(yields, optimal_f(profits, max_iterations, tolerance)).raw;
            &&& tolerance.raw > 0 ==> wealth > Fixed::spec_one().raw - tolerance.raw
            &&& tolerance.raw <= 0 ==> wealth >= Fixed::spec_one().raw
        }),
{
    let yields = yields_per_loss(profits, largest_loss(profits));
    lemma_grid_best_keeps_wealth(yields);
    lemma_refine_keeps_wealth(
        yields,
        grid_point(grid_argmax(yields, GRID_POINTS as int)),
        max_iterations,
        tolerance,
    );
}

} // verus!
