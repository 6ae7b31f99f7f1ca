//! Descriptive statistics of a trade sequence.
//!
//! The model of a trade sequence is the sequence of its raw profits, a
//! `Seq<int>` of billionths. Wins are the positive entries and losses the
//! negative ones; an entry of exactly zero is neither, but it still counts
//! as a trade and still takes part in the drawdown walk.

use vstd::prelude::*;
use crate::fixed::SCALE;
use crate::model::profits_of;
use crate::model::PerformanceMetrics;
use crate::model::RiskError;
use crate::model::Trade;
use crate::ratio::Ratio;
use crate::ratio::Rational;
use crate::sorting::amounts;
use crate::sorting::ints;
use crate::sorting::median_doubled;
use crate::sorting::median_doubled_of;
use crate::sorting::sorted_copy;

verus! {

/// The winning profits, in input order.
pub open spec fn wins(p: Seq<int>) -> Seq<int> {
    p.filter(|x: int| x > 0)
}

/// The losing profits, in input order.
pub open spec fn losses(p: Seq<int>) -> Seq<int> {
    p.filter(|x: int| x < 0)
}

/// The magnitudes of the losing profits, in input order.
pub open spec fn loss_sizes(p: Seq<int>) -> Seq<int> {
    losses(p).map_values(|x: int| -x)
}

/// The sum of a sequence.
pub open spec fn total(s: Seq<int>) -> int
    decreases s.len(),
{
    if s.len() == 0 {
        0
    } else {
        total(s.drop_last()) + s.last()
    }
}

/// Cumulative profit after the first `k` trades.
pub open spec fn equity(p: Seq<int>, k: int) -> int {
    total(p.take(k))
}

/// Highest cumulative profit seen within the first `k` trades, starting
/// from zero before the first trade.
pub open spec fn peak(p: Seq<int>, k: int) -> int
    decreases k,
{
    if k <= 0 {
        0
    } else if peak(p, k - 1) >= equity(p, k) {
        peak(p, k - 1)
    } else {
        equity(p, k)
    }
}

/// Decline from the running peak right after trade `k`.
pub open spec fn drawdown(p: Seq<int>, k: int) -> int {
    peak(p, k) - equity(p, k)
}

/// Largest decline from the running peak within the first `k` trades.
pub open spec fn max_drawdown(p: Seq<int>, k: int) -> int
    decreases k,
{
    if k <= 0 {
        0
    } else if max_drawdown(p, k - 1) >= drawdown(p, k) {
        max_drawdown(p, k - 1)
    } else {
        drawdown(p, k)
    }
}

/// Twice the median winning profit; zero where there is no win.
pub open spec fn median_win_doubled(p: Seq<int>) -> int {
    median_doubled(wins(p).sort())
}

/// Twice the median loss magnitude; zero where there is no loss.
pub open spec fn median_loss_doubled(p: Seq<int>) -> int {
    median_doubled(loss_sizes(p).sort())
}

impl PerformanceMetrics {
    /// These are the statistics of the profit sequence `p`.
    pub open spec fn describes(self, p: Seq<int>) -> bool {
        let n = p.len() as int;
        let w = wins(p).len() as int;
        let l = losses(p).len() as int;
        let gross_profit = total(wins(p));
        let gross_loss = total(loss_sizes(p));
        &&& self.total_trades == n
        &&& self.win_probability.is_fraction(w, n)
        &&& self.loss_probability.is_fraction(l, n)
        &&& if w > 0 {
            self.avg_win.is_fraction(gross_profit, w * SCALE)
        } else {
            self.avg_win.is_fraction(0, 1)
        }
        &&& if l > 0 {
            self.avg_loss.is_fraction(-gross_loss, l * SCALE)
        } else {
            self.avg_loss.is_fraction(0, 1)
        }
        &&& if median_loss_doubled(p) != 0 {
            self.win_loss_ratio.is_fraction(median_win_doubled(p), median_loss_doubled(p))
        } else {
            self.win_loss_ratio.is_fraction(0, 1)
        }
        &&& if gross_loss != 0 {
            self.profit_factor.is_fraction(gross_profit, gross_loss)
        } else {
            self.profit_factor.is_fraction(0, 1)
        }
        &&& self.expectancy.is_fraction(gross_profit - gross_loss, n * SCALE)
        &&& self.max_drawdown.is_fraction(max_drawdown(p, n), SCALE as int)
        &&& self.sharpe_ratio is None
    }
}

/// `total` of a sequence with one more element.
pub proof fn lemma_total_push(s: Seq<int>, x: int)
    ensures
        total(s.push(x)) == total(s) + x,
{
    assert(s.push(x).drop_last() =~= s);
}

/// The first `k + 1` elements are the first `k` and then element `k`.
pub proof fn lemma_take_step(p: Seq<int>, k: int)
    requires
        0 <= k < p.len(),
    ensures
        p.take(k + 1) == p.take(k).push(p[k]),
        equity(p, k + 1) == equity(p, k) + p[k],
{
    assert(p.take(k + 1) =~= p.take(k).push(p[k]));
    lemma_total_push(p.take(k), p[k]);
}

/// Wins and losses of a sequence with one more element.
pub proof fn lemma_classify_push(s: Seq<int>, x: int)
    ensures
        wins(s.push(x)) == if x > 0 {
            wins(s).push(x)
        } else {
            wins(s)
        },
        losses(s.push(x)) == if x < 0 {
            losses(s).push(x)
        } else {
            losses(s)
        },
        loss_sizes(s.push(x)) == if x < 0 {
            loss_sizes(s).push(-x)
        } else {
            loss_sizes(s)
        },
{
    s.lemma_filter_push(x, |x: int| x > 0);
    s.lemma_filter_push(x, |x: int| x < 0);
    if x < 0 {
        assert(losses(s).push(x).map_values(|x: int| -x) =~= loss_sizes(s).push(-x));
    }
}

/// The winning profits of `trades`, in input order.
pub fn winning_amounts(trades: &Vec<Trade>) -> (r: Vec<i128>)
    ensures
        ints(r@) == wins(profits_of(trades@)),
        amounts(r@),
{
    let ghost p = profits_of(trades@);
    let mut r: Vec<i128> = Vec::new();
    let mut i: usize = 0;
    assert(p.take(0) =~= Seq::<int>::empty());
    assert(ints(r@) =~= wins(p.take(0)));
    while i < trades.len()
        invariant
            i <= trades.len(),
            p == profits_of(trades@),
            ints(r@) == wins(p.take(i as int)),
            amounts(r@),
        decreases trades.len() - i,
    {
        let x: i64 = trades[i].profit.raw;
        proof {
            lemma_take_step(p, i as int);
            lemma_classify_push(p.take(i as int), x as int);
        }
        if x > 0 {
            let ghost before = r@;
            r.push(x as i128);
            assert(ints(r@) =~= ints(before).push(x as int));
        }
        i += 1;
    }
    assert(p.take(trades@.len() as int) =~= p);
    r
}

/// The magnitudes of the losing profits of `trades`, in input order.
pub fn losing_amounts(trades: &Vec<Trade>) -> (r: Vec<i128>)
    ensures
        ints(r@) == loss_sizes(profits_of(trades@)),
        r@.len() == losses(profits_of(trades@)).len(),
        amounts(r@),
{
    let ghost p = profits_of(trades@);
    let mut r: Vec<i128> = Vec::new();
    let mut i: usize = 0;
    assert(p.take(0) =~= Seq::<int>::empty());
    assert(ints(r@) =~= loss_sizes(p.take(0)));
    while i < trades.len()
        invariant
            i <= trades.len(),
            p == profits_of(trades@),
            ints(r@) == loss_sizes(p.take(i as int)),
            amounts(r@),
        decreases trades.len() - i,
    {
        let x: i64 = trades[i].profit.raw;
        proof {
            lemma_take_step(p, i as int);
            lemma_classify_push(p.take(i as int), x as int);
        }
        if x < 0 {
            let ghost before = r@;
            r.push(-(x as i128));
            assert(ints(r@) =~= ints(before).push(-(x as int)));
        }
        i += 1;
    }
    assert(p.take(trades@.len() as int) =~= p);
    r
}

/// The sum of a run of amounts.
pub fn sum_of(v: &Vec<i128>) -> (s: i128)
    requires
        amounts(v@),
    ensures
        s == total(ints(v@)),
        0 <= s <= v@.len() * 0x8000_0000_0000_0000,
{
    let mut s: i128 = 0;
    let mut i: usize = 0;
    assert(ints(v@).take(0) =~= Seq::<int>::empty());
    while i < v.len()
        invariant
            i <= v.len(),
            amounts(v@),
            s == total(ints(v@).take(i as int)),
            0 <= s <= i * 0x8000_0000_0000_0000,
        decreases v.len() - i,
    {
        proof {
            lemma_take_step(ints(v@), i as int);
        }
        s = s + v[i];
        i += 1;
    }
    assert(ints(v@).take(v@.len() as int) =~= ints(v@));
    s
}

/// One step of the drawdown walk: the decline after trade `k + 1` is the
/// decline after trade `k` less the new profit, floored at zero.
pub proof fn lemma_drawdown_step(p: Seq<int>, k: int)
    requires
        0 <= k < p.len(),
    ensures
        drawdown(p, k + 1) == if drawdown(p, k) - p[k] >= 0 {
            drawdown(p, k) - p[k]
        } else {
            0
        },
{
    lemma_take_step(p, k);
}

/// The largest decline from the running peak of cumulative profit.
pub fn max_drawdown_of(trades: &Vec<Trade>) -> (d: i128)
    ensures
        d == max_drawdown(profits_of(trades@), trades@.len() as int),
        0 <= d <= trades@.len() * 0x8000_0000_0000_0000,
{
    let ghost p = profits_of(trades@);
    let mut current: i128 = 0;
    let mut worst: i128 = 0;
    let mut i: usize = 0;
    assert(p.take(0) =~= Seq::<int>::empty());
    while i < trades.len()
        invariant
            i <= trades.len(),
            p == profits_of(trades@),
            current == drawdown(p, i as int),
            worst == max_drawdown(p, i as int),
            0 <= current <= i * 0x8000_0000_0000_0000,
            0 <= worst <= i * 0x8000_0000_0000_0000,
        decreases trades.len() - i,
    {
        let x: i128 = trades[i].profit.raw as i128;
        proof {
            lemma_drawdown_step(p, i as int);
        }
        current = current - x;
        if current < 0 {
            current = 0;
        }
        if current > worst {
            worst = current;
        }
        i += 1;
    }
    worst
}


/// Win and loss statistics and drawdown of a trade sequence.
///
/// Fails with `EmptyInput` exactly when `trades` is empty.
pub fn calculate_performance_metrics(trades: &Vec<Trade>) -> (res: Result<
    PerformanceMetrics,
    RiskError,
>)
    ensures
        trades@.len() == 0 <==> res == Err::<PerformanceMetrics, RiskError>(RiskError::EmptyInput),
        trades@.len() > 0 <==> res is Ok,
        res matches Ok(m) ==> m.describes(profits_of(trades@)),
        res matches Ok(m) ==> m.total_trades == trades@.len(),
{
    let n: usize = trades.len();
    if n == 0 {
        return Err(RiskError::EmptyInput);
    }
    let ghost p = profits_of(trades@);
    let win_amounts = winning_amounts(trades);
    let loss_amounts = losing_amounts(trades);
    let w: usize = win_amounts.len();
    let l: usize = loss_amounts.len();
    proof {
        p.lemma_filter_len(|x: int| x > 0);
        p.lemma_filter_len(|x: int| x < 0);
        assert(ints(win_amounts@).len() == w);
        assert(ints(loss_amounts@).len() == l);
    }
    let gross_profit: i128 = sum_of(&win_amounts);
    let gross_loss: i128 = sum_of(&loss_amounts);

    let sorted_wins = sorted_copy(&win_amounts);
    let sorted_losses = sorted_copy(&loss_amounts);
    let median_win: i128 = median_doubled_of(&sorted_wins);
    let median_loss: i128 = median_doubled_of(&sorted_losses);

    let win_probability = Ratio { num: w as i128, den: n as i128 };
    let loss_probability = Ratio { num: l as i128, den: n as i128 };
    let avg_win = if w > 0 {
        Ratio { num: gross_profit, den: (w as i128) * (SCALE as i128) }
    } else {
        Ratio { num: 0, den: 1 }
    };
    let avg_loss = if l > 0 {
        Ratio { num: -gross_loss, den: (l as i128) * (SCALE as i128) }
    } else {
        Ratio { num: 0, den: 1 }
    };
    let win_loss_ratio = if median_loss != 0 {
        Ratio { num: median_win, den: median_loss }
    } else {
        Ratio { num: 0, den: 1 }
    };
    let profit_factor = if gross_loss != 0 {
        Ratio { num: gross_profit, den: gross_loss }
    } else {
        Ratio { num: 0, den: 1 }
    };
    let expectancy = Ratio { num: gross_profit - gross_loss, den: (n as i128) * (SCALE as i128) };
    let max_drawdown = Ratio { num: max_drawdown_of(trades), den: SCALE as i128 };

    Ok(
        PerformanceMetrics::new(
            n,
            win_probability,
            loss_probability,
            avg_win,
            avg_loss,
            win_loss_ratio,
            profit_factor,
            expectancy,
            max_drawdown,
            None,
        ),
    )
}


/// Wins and losses never outnumber the trades, and together they are all
/// of them exactly when no profit is zero.
pub proof fn lemma_wins_and_losses_partition(p: Seq<int>)
    ensures
        wins(p).len() + losses(p).len() <= p.len(),
        wins(p).len() + losses(p).len() == p.len() <==> (forall|i: int|
            0 <= i < p.len() ==> p[i] != 0),
    decreases p.len(),
{
    if p.len() == 0 {
        p.lemma_filter_len(|x: int| x > 0);
        p.lemma_filter_len(|x: int| x < 0);
    } else {
        let s = p.drop_last();
        let x = p.last();
        assert(p =~= s.push(x));
        lemma_classify_push(s, x);
        lemma_wins_and_losses_partition(s);
        if wins(p).len() + losses(p).len() == p.len() {
            assert forall|i: int| 0 <= i < p.len() implies p[i] != 0 by {
                if i < s.len() {
                    assert(s[i] == p[i]);
                }
            }
        }
        if forall|i: int| 0 <= i < p.len() ==> p[i] != 0 {
            assert forall|i: int| 0 <= i < s.len() implies s[i] != 0 by {
                assert(s[i] == p[i]);
            }
        }
    }
}

/// The win and loss probabilities sum to at most one, and to exactly one
/// if and only if no trade has a profit of zero.
pub proof fn lemma_probabilities_sum(m: PerformanceMetrics, p: Seq<int>)
    requires
        p.len() > 0,
        m.describes(p),
    ensures
        m.win_probability@.add(m.loss_probability@).le(Rational::one()),
        m.win_probability@.add(m.loss_probability@).eqv(Rational::one()) <==> (forall|i: int|
            0 <= i < p.len() ==> p[i] != 0),
{
    lemma_wins_and_losses_partition(p);
    let n = p.len() as int;
    let w = wins(p).len() as int;
    let l = losses(p).len() as int;
    assert((w * n + l * n) * 1 <= 1 * (n * n) && ((w * n + l * n) * 1 == 1 * (n * n) <==> w + l
        == n)) by (nonlinear_arith)
        requires
            n > 0,
            w + l <= n,
    ;
}

/// The drawdown is never negative, and it is zero if and only if no trade
/// within the first `k` loses money, that is, if and only if cumulative
/// profit never declines.
pub proof fn lemma_max_drawdown_sign(p: Seq<int>, k: int)
    requires
        0 <= k <= p.len(),
    ensures
        max_drawdown(p, k) >= 0,
        drawdown(p, k) >= 0,
        max_drawdown(p, k) == 0 <==> (forall|i: int| 0 <= i < k ==> p[i] >= 0),
    decreases k,
{
    if k == 0 {
        assert(p.take(0) =~= Seq::<int>::empty());
    } else {
        lemma_max_drawdown_sign(p, k - 1);
        lemma_drawdown_step(p, k - 1);
        if forall|i: int| 0 <= i < k ==> p[i] >= 0 {
            lemma_drawdown_zero(p, k);
        }
    }
}

/// While no trade loses money the running decline stays at zero.
pub proof fn lemma_drawdown_zero(p: Seq<int>, k: int)
    requires
        0 <= k <= p.len(),
        forall|i: int| 0 <= i < k ==> p[i] >= 0,
    ensures
        drawdown(p, k) == 0,
        max_drawdown(p, k) == 0,
    decreases k,
{
    if k == 0 {
        assert(p.take(0) =~= Seq::<int>::empty());
    } else {
        lemma_drawdown_zero(p, k - 1);
        lemma_drawdown_step(p, k - 1);
    }
}

/// The reported drawdown bounds every decline of cumulative profit from an
/// earlier point of the curve to a later one, the start included.
pub proof fn lemma_max_drawdown_bounds_declines(p: Seq<int>, i: int, j: int)
    requires
        0 <= i <= j <= p.len(),
    ensures
        equity(p, i) - equity(p, j) <= max_drawdown(p, p.len() as int),
{
    lemma_peak_bounds_equity(p, i, j);
    lemma_max_drawdown_monotone(p, j, p.len() as int);
    if j > 0 {
    } else {
        lemma_max_drawdown_sign(p, p.len() as int);
    }
}

/// The running peak is one of the points of the curve so far.
pub proof fn lemma_peak_is_attained(p: Seq<int>, k: int)
    requires
        0 <= k <= p.len(),
    ensures
        exists|i: int| 0 <= i <= k && #[trigger] equity(p, i) == peak(p, k),
    decreases k,
{
    if k == 0 {
        assert(p.take(0) =~= Seq::<int>::empty());
        assert(equity(p, 0) == peak(p, 0));
    } else if peak(p, k - 1) >= equity(p, k) {
        lemma_peak_is_attained(p, k - 1);
        let i = choose|i: int| 0 <= i <= k - 1 && #[trigger] equity(p, i) == peak(p, k - 1);
        assert(equity(p, i) == peak(p, k));
    } else {
        assert(equity(p, k) == peak(p, k));
    }
}

/// The reported drawdown is itself a decline of cumulative profit from an
/// earlier point of the curve to a later one.
pub proof fn lemma_max_drawdown_is_attained(p: Seq<int>, k: int)
    requires
        0 <= k <= p.len(),
    ensures
        exists|i: int, j: int|
            0 <= i <= j <= k && #[trigger] equity(p, i) - #[trigger] equity(p, j) == max_drawdown(
                p,
                k,
            ),
    decreases k,
{
    if k == 0 {
        assert(equity(p, 0) - equity(p, 0) == max_drawdown(p, 0));
    } else if max_drawdown(p, k - 1) >= drawdown(p, k) {
        lemma_max_drawdown_is_attained(p, k - 1);
        let (i, j) = choose|i: int, j: int|
            0 <= i <= j <= k - 1 && #[trigger] equity(p, i) - #[trigger] equity(p, j)
                == max_drawdown(p, k - 1);
        assert(equity(p, i) - equity(p, j) == max_drawdown(p, k));
    } else {
        lemma_peak_is_attained(p, k);
        let i = choose|i: int| 0 <= i <= k && #[trigger] equity(p, i) == peak(p, k);
        assert(equity(p, i) - equity(p, k) == max_drawdown(p, k));
    }
}

/// The running peak is at least every earlier point of the curve.
pub proof fn lemma_peak_bounds_equity(p: Seq<int>, i: int, j: int)
    requires
        0 <= i <= j <= p.len(),
    ensures
        equity(p, i) <= peak(p, j),
    decreases j,
{
    if j == 0 {
        assert(p.take(0) =~= Seq::<int>::empty());
    } else if i < j {
        lemma_peak_bounds_equity(p, i, j - 1);
    } else {
    }
}

/// The largest decline so far never shrinks as the walk goes on, and it is
/// at least the decline at its last step.
pub proof fn lemma_max_drawdown_monotone(p: Seq<int>, j: int, k: int)
    requires
        0 <= j <= k <= p.len(),
    ensures
        max_drawdown(p, j) <= max_drawdown(p, k),
        j > 0 ==> drawdown(p, j) <= max_drawdown(p, k),
    decreases k - j,
{
    if j < k {
        lemma_max_drawdown_monotone(p, j, k - 1);
    }
}

/// Expectancy is the win probability times the average win, less the loss
/// probability times the magnitude of the average loss.
pub proof fn lemma_expectancy_formula(m: PerformanceMetrics, p: Seq<int>)
    requires
        p.len() > 0,
        m.describes(p),
    ensures
        m.expectancy@.eqv(
            m.win_probability@.mul(m.avg_win@).sub(m.loss_probability@.mul(m.avg_loss@.abs())),
        ),
{
    let n = p.len() as int;
    let w = wins(p).len() as int;
    let l = losses(p).len() as int;
    let g = total(wins(p));
    let b = total(loss_sizes(p));
    let s = SCALE as int;
    lemma_total_of_positive(wins(p));
    lemma_total_of_positive(loss_sizes(p));
    assert(loss_sizes(p).len() == l);
    // numerator and denominator of each product
    let wn = if w > 0 { w * g } else { 0 };
    let wd = if w > 0 { n * (w * s) } else { n };
    let ln = if l > 0 { l * b } else { 0 };
    let ld = if l > 0 { n * (l * s) } else { n };
    assert(m.win_probability@.mul(m.avg_win@) == Rational { num: wn, den: wd }) by {
        if w <= 0 {
            assert(w * 0 == 0);
            assert(n * 1 == n);
        }
    }
    assert(m.loss_probability@.mul(m.avg_loss@.abs()) == Rational { num: ln, den: ld }) by {
        if l <= 0 {
            assert(l * 0 == 0);
            assert(n * 1 == n);
        }
    }
    if w > 0 && l > 0 {
        lemma_common_denominator(g, b, n, w, l, s);
    } else if w > 0 {
        lemma_single_denominator(g, n, w, s);
        assert(0 * (n * (w * s)) == 0);
    } else if l > 0 {
        lemma_single_denominator(b, n, l, s);
        assert(0 * (n * (l * s)) == 0);
        assert(n * (n * (l * s)) == (n * (l * s)) * n) by (nonlinear_arith);
        assert((0 - b) * ((n * (l * s)) * n) == -(b * ((n * (l * s)) * n))) by (nonlinear_arith);
        assert((0 - (l * b) * n) * (n * s) == -(((l * b) * n) * (n * s))) by (nonlinear_arith);
    } else {
        assert((0 - 0) * (n * n) == (0 * n - 0 * n) * (n * s)) by (nonlinear_arith);
    }
}

/// One fraction over `n * (w * s)` and a whole number over `n`, brought over a
/// common denominator.
proof fn lemma_single_denominator(g: int, n: int, w: int, s: int)
    ensures
        g * ((n * (w * s)) * n) == ((w * g) * n) * (n * s),
{
    let a = n * s;
    assert(n * (w * s) == w * a) by (nonlinear_arith)
        requires
            a == n * s,
    ;
    assert(g * ((w * a) * n) == ((w * g) * n) * a) by (nonlinear_arith);
}

/// Two fractions over `n * (w * s)` and `n * (l * s)` brought over a common
/// denominator.
proof fn lemma_common_denominator(g: int, b: int, n: int, w: int, l: int, s: int)
    ensures
        (g - b) * ((n * (w * s)) * (n * (l * s))) == ((w * g) * (n * (l * s)) - (l * b) * (n * (w
            * s))) * (n * s),
{
    let a = n * s;
    let t = w * l;
    let ta = t * a;
    assert(n * (w * s) == w * a) by (nonlinear_arith)
        requires
            a == n * s,
    ;
    assert(n * (l * s) == l * a) by (nonlinear_arith)
        requires
            a == n * s,
    ;
    assert((w * a) * (l * a) == ta * a) by (nonlinear_arith)
        requires
            ta == (w * l) * a,
    ;
    assert((w * g) * (l * a) == g * ta) by (nonlinear_arith)
        requires
            ta == (w * l) * a,
    ;
    assert((l * b) * (w * a) == b * ta) by (nonlinear_arith)
        requires
            ta == (w * l) * a,
    ;
    assert((g - b) * (ta * a) == (g * ta - b * ta) * a) by (nonlinear_arith);
}

/// A sum of positive numbers is positive, and an empty sum is zero.
pub proof fn lemma_total_of_positive(s: Seq<int>)
    requires
        forall|i: int| 0 <= i < s.len() ==> s[i] > 0,
    ensures
        s.len() == 0 ==> total(s) == 0,
        s.len() > 0 ==> total(s) > 0,
    decreases s.len(),
{
    if s.len() > 0 {
        assert forall|i: int| 0 <= i < s.drop_last().len() implies s.drop_last()[i] > 0 by {
            assert(s.drop_last()[i] == s[i]);
        }
        lemma_total_of_positive(s.drop_last());
    }
}

} // verus!
