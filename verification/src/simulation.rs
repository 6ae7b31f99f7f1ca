//! Bootstrap Monte Carlo forecast of a funded-account challenge.
//!
//! One simulated path is the profit history resampled with replacement and
//! walked under the rules of the challenge, each resampled profit read as a
//! percentage return on the risked part of equity. The forecast is the share
//! of paths that reach the profit target without breaching a loss limit.

use vstd::prelude::*;
use rand::Rng;
use rayon::iter::IntoParallelIterator;
use rayon::iter::ParallelIterator;
use crate::fixed::Fixed;
use crate::fixed::SCALE;
use crate::model::profit_seq;
use crate::model::profit_values;
use crate::model::ChallengeParams;
use crate::model::RiskError;
use crate::model::Trade;
use crate::ratio::Ratio;
use crate::ratio::Rational;

verus! {

/// Number of steps of a walk after which the daily tally no longer
/// accumulates.
pub const DAY_LENGTH: usize = 100;

/// Raw units in one hundred percent of a whole: `100 * SCALE`.
pub const FULL_PERCENT: i128 = 100_000_000_000;

/// Profit or loss of one step: equity times the risk fraction, times the
/// resampled value read as a percentage.
pub open spec fn trade_pl(equity: Fixed, risk_fraction: Fixed, value: Fixed) -> Fixed {
    equity.spec_mul(risk_fraction).spec_mul(value.spec_div(Fixed::spec_from_int(100)))
}

/// The daily tally, as a share of the account, is below minus the daily
/// loss limit: `daily / account < -limit / 100`, compared exactly.
pub open spec fn breaches_daily_limit(daily: Fixed, params: ChallengeParams) -> bool {
    daily.raw * FULL_PERCENT < -(params.max_daily_loss_percent.raw * params.account_size.raw)
}

/// Equity is below the account less the overall loss limit:
/// `equity < account * (1 - limit / 100)`, compared exactly.
pub open spec fn breaches_overall_limit(equity: Fixed, params: ChallengeParams) -> bool {
    equity.raw * FULL_PERCENT < params.account_size.raw * (FULL_PERCENT
        - params.max_overall_loss_percent.raw)
}

/// Equity has reached the account plus the profit target:
/// `equity >= account * (1 + target / 100)`, compared exactly.
pub open spec fn reaches_target(equity: Fixed, params: ChallengeParams) -> bool {
    equity.raw * FULL_PERCENT >= params.account_size.raw * (FULL_PERCENT
        + params.profit_target_percent.raw)
}

/// Outcome of the walk over `sample` from step `i` on, entered with the
/// given equity and daily tally.
///
/// Each step adds its profit or loss to both. The walk then fails on a
/// breach of the daily limit, else fails on a breach of the overall limit,
/// else passes on reaching the target. Otherwise it goes on, with the daily
/// tally cleared once more than `DAY_LENGTH` steps have been taken. A walk
/// that runs out of steps passes only if its equity is at the target.
pub open spec fn passes_from(
    sample: Seq<Fixed>,
    i: int,
    equity: Fixed,
    daily: Fixed,
    params: ChallengeParams,
    risk_fraction: Fixed,
) -> bool
    decreases sample.len() - i,
{
    if i < 0 || i >= sample.len() {
        reaches_target(equity, params)
    } else {
        let pl = trade_pl(equity, risk_fraction, sample[i]);
        let tally = daily.spec_add(pl);
        let next = equity.spec_add(pl);
        if breaches_daily_limit(tally, params) || breaches_overall_limit(next, params) {
            false
        } else if reaches_target(next, params) {
            true
        } else {
            passes_from(
                sample,
                i + 1,
                next,
                if i + 1 > DAY_LENGTH {
                    Fixed::spec_zero()
                } else {
                    tally
                },
                params,
                risk_fraction,
            )
        }
    }
}

/// Whether the walk over `sample` passes the challenge.
pub open spec fn path_passes(sample: Seq<Fixed>, params: ChallengeParams, risk_fraction: Fixed)
    -> bool {
    passes_from(sample, 0, params.account_size, Fixed::spec_zero(), params, risk_fraction)
}

/// `sample` is as long as `values` and every element of it occurs in
/// `values`.
pub open spec fn is_resample(sample: Seq<Fixed>, values: Seq<Fixed>) -> bool {
    &&& sample.len() == values.len()
    &&& forall|i: int| 0 <= i < sample.len() ==> values.contains(#[trigger] sample[i])
}

/// Some resample of `values` has the outcome `passed`.
pub open spec fn possible_outcome(
    values: Seq<Fixed>,
    params: ChallengeParams,
    risk_fraction: Fixed,
    passed: bool,
) -> bool {
    exists|sample: Seq<Fixed>| #[trigger]
        is_resample(sample, values) && path_passes(sample, params, risk_fraction) == passed
}

/// Every entry is the outcome of the walk over some resample of `values`.
pub open spec fn all_possible(
    outcomes: Seq<bool>,
    values: Seq<Fixed>,
    params: ChallengeParams,
    risk_fraction: Fixed,
) -> bool {
    forall|i: int|
        0 <= i < outcomes.len() ==> possible_outcome(
            values,
            params,
            risk_fraction,
            #[trigger] outcomes[i],
        )
}

/// Number of `true` entries.
pub open spec fn count_passed(outcomes: Seq<bool>) -> int {
    outcomes.filter(|b: bool| b).len() as int
}

/// Result of a forecast.
#[derive(Clone, Copy, Debug)]
pub struct SimulationResult {
    pub pass_rate: Ratio,
    pub total_simulations: usize,
    pub passed_simulations: usize,
}

impl SimulationResult {
    /// This is the summary of `count` outcomes, each of them the outcome of
    /// the walk over some resample of `values`.
    pub open spec fn is_forecast(
        self,
        values: Seq<Fixed>,
        params: ChallengeParams,
        risk_fraction: Fixed,
        count: int,
    ) -> bool {
        exists|outcomes: Seq<bool>| #[trigger]
            self.summarizes(outcomes) && outcomes.len() == count && all_possible(
                outcomes,
                values,
                params,
                risk_fraction,
            )
    }

    /// This is the summary of `outcomes`.
    pub open spec fn summarizes(self, outcomes: Seq<bool>) -> bool {
        &&& self.total_simulations == outcomes.len()
        &&& self.passed_simulations == count_passed(outcomes)
        &&& self.pass_rate.is_fraction(count_passed(outcomes), outcomes.len() as int)
    }
}

/// Whether the walk over `sample` passes the challenge.
pub fn walk_path(sample: &Vec<Fixed>, params: &ChallengeParams, risk_fraction: Fixed) -> (passed:
    bool)
    ensures
        passed == path_passes(sample@, *params, risk_fraction),
{
    let account: i128 = params.account_size.raw as i128;
    let target: i128 = FULL_PERCENT + params.profit_target_percent.raw as i128;
    let floor: i128 = FULL_PERCENT - params.max_overall_loss_percent.raw as i128;
    let daily_limit: i128 = params.max_daily_loss_percent.raw as i128;
    proof {
        lemma_product_bound(account as int, target as int);
        lemma_product_bound(account as int, floor as int);
        lemma_product_bound(daily_limit as int, account as int);
    }
    let target_level: i128 = account * target;
    let floor_level: i128 = account * floor;
    let daily_level: i128 = -(daily_limit * account);
    let hundred = Fixed::from_int(100);
    let mut equity: Fixed = params.account_size;
    let mut daily: Fixed = Fixed::zero();
    let mut i: usize = 0;
    while i < sample.len()
        invariant
            i <= sample.len(),
            hundred == Fixed::spec_from_int(100),
            target_level == params.account_size.raw * (FULL_PERCENT
                + params.profit_target_percent.raw),
            floor_level == params.account_size.raw * (FULL_PERCENT
                - params.max_overall_loss_percent.raw),
            daily_level == -(params.max_daily_loss_percent.raw * params.account_size.raw),
            passes_from(sample@, i as int, equity, daily, *params, risk_fraction) == path_passes(
                sample@,
                *params,
                risk_fraction,
            ),
        decreases sample.len() - i,
    {
        let pl = equity.mul(risk_fraction).mul(sample[i].div(hundred));
        daily = daily.add(pl);
        equity = equity.add(pl);
        proof {
            lemma_product_bound(daily.raw as int, FULL_PERCENT as int);
            lemma_product_bound(equity.raw as int, FULL_PERCENT as int);
        }
        if (daily.raw as i128) * FULL_PERCENT < daily_level {
            return false;
        }
        let level: i128 = (equity.raw as i128) * FULL_PERCENT;
        if level < floor_level {
            return false;
        }
        if level >= target_level {
            return true;
        }
        i += 1;
        if i > DAY_LENGTH {
            daily = Fixed::zero();
        }
    }
    proof {
        lemma_product_bound(equity.raw as int, FULL_PERCENT as int);
    }
    (equity.raw as i128) * FULL_PERCENT >= target_level
}

/// A product of a 64-bit number and one slightly wider fits in 128 bits.
proof fn lemma_product_bound(a: int, b: int)
    requires
        -0x8000_0000_0000_0000 <= a <= 0x8000_0000_0000_0000,
        -0x9000_0000_0000_0000 <= b <= 0x9000_0000_0000_0000,
    ensures
        -0x4800_0000_0000_0000_0000_0000_0000_0000 <= a * b
            <= 0x4800_0000_0000_0000_0000_0000_0000_0000,
        a * b == b * a,
{
    assert(-0x4800_0000_0000_0000_0000_0000_0000_0000 <= a * b
        <= 0x4800_0000_0000_0000_0000_0000_0000_0000 && a * b == b * a) by (nonlinear_arith)
        requires
            -0x8000_0000_0000_0000 <= a <= 0x8000_0000_0000_0000,
            -0x9000_0000_0000_0000 <= b <= 0x9000_0000_0000_0000,
    ;
}

/// The handle of `rand` to the random number generator of a thread.
#[verifier::external_type_specification]
#[verifier::external_body]
pub struct ExThreadRng(rand::rngs::ThreadRng);

/// `rand::thread_rng` hands out the generator of the calling thread, which
/// seeds itself from the operating system when the thread first uses it.
/// Nothing is claimed of the handle.
pub assume_specification[ rand::thread_rng ]() -> (generator: rand::rngs::ThreadRng)
;

/// A number below `bound`, drawn from `generator`.
///
/// Calls `rand::Rng::gen_range` with the half-open range `0..bound`. The
/// range must not be empty, or the call panics; the value drawn lies in the
/// range. Nothing else is claimed of it, and two calls need not agree.
#[verifier::external_body]
fn random_index(generator: &mut rand::rngs::ThreadRng, bound: usize) -> (index: usize)
    requires
        bound > 0,
    ensures
        index < bound,
{
    generator.gen_range(0..bound)
}

/// As many values as `values` holds, each drawn from it at random with
/// replacement.
pub fn resample(values: &Vec<Fixed>) -> (sample: Vec<Fixed>)
    requires
        values@.len() > 0,
    ensures
        is_resample(sample@, values@),
{
    let mut generator = rand::thread_rng();
    let mut sample: Vec<Fixed> = Vec::new();
    let mut i: usize = 0;
    while i < values.len()
        invariant
            i <= values.len(),
            values@.len() > 0,
            sample@.len() == i,
            forall|k: int| 0 <= k < sample@.len() ==> values@.contains(#[trigger] sample@[k]),
        decreases values.len() - i,
    {
        let index = random_index(&mut generator, values.len());
        sample.push(values[index]);
        i += 1;
    }
    sample
}

/// One simulated path: a fresh resample of `values`, walked under the
/// rules.
pub fn simulate_path(values: &Vec<Fixed>, params: &ChallengeParams, risk_fraction: Fixed) -> (passed:
    bool)
    requires
        values@.len() > 0,
    ensures
        possible_outcome(values@, *params, risk_fraction, passed),
{
    let sample = resample(values);
    let passed = walk_path(&sample, params, risk_fraction);
    assert(is_resample(sample@, values@) && path_passes(sample@, *params, risk_fraction) == passed);
    passed
}

/// The outcomes of `count` independent simulated paths, run on the worker
/// threads of the global pool.
///
/// Calls rayon's `into_par_iter` on the range `0..count`, `map` with a
/// closure that calls [`simulate_path`] once for each index and ignores the
/// index, and `collect` into a `Vec`. A range is an indexed parallel
/// iterator, so the vector holds exactly one entry for each index; each
/// entry is what one call of `simulate_path` returned, and so is an outcome
/// that `simulate_path` can have.
#[verifier::external_body]
fn simulate_paths(
    values: &Vec<Fixed>,
    params: &ChallengeParams,
    risk_fraction: Fixed,
    count: usize,
) -> (outcomes: Vec<bool>)
    requires
        values@.len() > 0,
    ensures
        outcomes@.len() == count,
        forall|i: int|
            0 <= i < count ==> possible_outcome(
                values@,
                *params,
                risk_fraction,
                #[trigger] outcomes@[i],
            ),
{
    (0..count).into_par_iter().map(|_| simulate_path(values, params, risk_fraction)).collect()
}

/// Counts the passed paths and reports their share.
pub fn summarize(outcomes: &Vec<bool>) -> (r: SimulationResult)
    requires
        outcomes@.len() > 0,
    ensures
        r.summarizes(outcomes@),
        r.passed_simulations <= r.total_simulations,
        r.pass_rate.wf(),
{
    let mut passed: usize = 0;
    let mut i: usize = 0;
    assert(outcomes@.take(0) =~= Seq::<bool>::empty());
    while i < outcomes.len()
        invariant
            i <= outcomes.len(),
            passed == count_passed(outcomes@.take(i as int)),
            passed <= i,
        decreases outcomes.len() - i,
    {
        proof {
            assert(outcomes@.take(i + 1) =~= outcomes@.take(i as int).push(outcomes@[i as int]));
            outcomes@.take(i as int).lemma_filter_push(outcomes@[i as int], |b: bool| b);
        }
        if outcomes[i] {
            passed += 1;
        }
        i += 1;
    }
    assert(outcomes@.take(outcomes@.len() as int) =~= outcomes@);
    SimulationResult {
        pass_rate: Ratio { num: passed as i128, den: outcomes.len() as i128 },
        total_simulations: outcomes.len(),
        passed_simulations: passed,
    }
}

/// Forecasts the share of simulated paths that pass the challenge.
///
/// Fails with `EmptyInput` exactly when `trades` is empty. Otherwise the
/// result summarises `num_simulations` outcomes, each of them the outcome of
/// the walk over some resample of the profits.
pub fn run_monte_carlo_simulation(
    trades: &Vec<Trade>,
    challenge_params: &ChallengeParams,
    risk_fraction: Fixed,
    num_simulations: usize,
) -> (res: Result<SimulationResult, RiskError>)
    requires
        num_simulations > 0,
    ensures
        trades@.len() == 0 <==> res == Err::<SimulationResult, RiskError>(RiskError::EmptyInput),
        trades@.len() > 0 <==> res is Ok,
        res matches Ok(r) ==> r.is_forecast(
            profit_seq(trades@),
            *challenge_params,
            risk_fraction,
            num_simulations as int,
        ),
        res matches Ok(r) ==> {
            &&& r.total_simulations == num_simulations
            &&& r.passed_simulations <= num_simulations
            &&& r.pass_rate.is_fraction(r.passed_simulations as int, num_simulations as int)
            &&& Rational::zero().le(r.pass_rate@)
            &&& r.pass_rate@.le(Rational::one())
        },
{
    if trades.len() == 0 {
        return Err(RiskError::EmptyInput);
    }
    let values = profit_values(trades);
    let outcomes = simulate_paths(&values, challenge_params, risk_fraction, num_simulations);
    let r = summarize(&outcomes);
    proof {
        assert(values@ == profit_seq(trades@));
        assert(outcomes@.len() == num_simulations);
        assert(r.summarizes(outcomes@));
        assert(all_possible(outcomes@, profit_seq(trades@), *challenge_params, risk_fraction));
        let n = num_simulations as int;
        let k = r.passed_simulations as int;
        assert(0 * n <= k * 1 && k * 1 <= 1 * n) by (nonlinear_arith)
            requires
                0 <= k <= n,
        ;
    }
    Ok(r)
}

/// For a well-formed rule set the three rule checks are the comparisons of
/// the rules, made on exact values: the daily tally over the account is
/// below minus one hundredth of the daily limit; equity is below the
/// account times one less a hundredth of the overall limit; equity is not
/// below the account times one plus a hundredth of the target.
pub proof fn lemma_rule_checks_are_exact(tally: Fixed, equity: Fixed, params: ChallengeParams)
    requires
        params.wf(),
    ensures
        breaches_daily_limit(tally, params) <==> tally.value().div(params.account_size.value()).lt(
            params.max_daily_loss_percent.value().div(Rational::from_int(100)).neg(),
        ),
        breaches_overall_limit(equity, params) <==> equity.value().lt(
            params.account_size.value().mul(
                Rational::one().sub(
                    params.max_overall_loss_percent.value().div(Rational::from_int(100)),
                ),
            ),
        ),
        reaches_target(equity, params) <==> !equity.value().lt(
            params.account_size.value().mul(
                Rational::one().add(
                    params.profit_target_percent.value().div(Rational::from_int(100)),
                ),
            ),
        ),
{
    let s = SCALE as int;
    let full = FULL_PERCENT as int;
    let a = params.account_size.raw as int;
    let t = tally.raw as int;
    let e = equity.raw as int;
    let daily = params.max_daily_loss_percent.raw as int;
    let overall = params.max_overall_loss_percent.raw as int;
    let target = params.profit_target_percent.raw as int;
    assert(s * 100 == full);
    assert(daily * 1 == daily && overall * 1 == overall && target * 1 == target);
    // daily limit
    assert((t * s) * (s * 100) == s * (t * full)) by (nonlinear_arith)
        requires
            s * 100 == full,
    ;
    assert((-daily) * (s * a) == s * (-(daily * a))) by (nonlinear_arith);
    lemma_scale_keeps_order(t * full, -(daily * a));
    // overall limit
    assert(e * (s * full) == s * (e * full)) by (nonlinear_arith);
    assert((a * (full - overall)) * s == s * (a * (full - overall))) by (nonlinear_arith);
    lemma_scale_keeps_order(e * full, a * (full - overall));
    // target
    assert((a * (full + target)) * s == s * (a * (full + target))) by (nonlinear_arith);
    lemma_scale_keeps_order(e * full, a * (full + target));
}

/// Multiplying both sides by the scale keeps their order.
proof fn lemma_scale_keeps_order(x: int, y: int)
    ensures
        x < y <==> SCALE * x < SCALE * y,
{
}

/// The counts of a summary add up, and the pass rate is a share between
/// zero and one.
pub proof fn lemma_summary_is_a_share(r: SimulationResult, outcomes: Seq<bool>)
    requires
        outcomes.len() > 0,
        r.summarizes(outcomes),
    ensures
        0 <= r.passed_simulations <= r.total_simulations,
        r.passed_simulations + (r.total_simulations - r.passed_simulations) == outcomes.len(),
        Rational::zero().le(r.pass_rate@),
        r.pass_rate@.le(Rational::one()),
{
    outcomes.lemma_filter_len(|b: bool| b);
    let n = outcomes.len() as int;
    let k = count_passed(outcomes);
    assert(0 * n <= k * 1 && k * 1 <= 1 * n) by (nonlinear_arith)
        requires
            0 <= k <= n,
    ;
}

/// Outcomes that are all equal to `passed` count as all or none.
pub proof fn lemma_count_of_constant(outcomes: Seq<bool>, passed: bool)
    requires
        forall|i: int| 0 <= i < outcomes.len() ==> outcomes[i] == passed,
    ensures
        count_passed(outcomes) == if passed {
            outcomes.len() as int
        } else {
            0
        },
    decreases outcomes.len(),
{
    if outcomes.len() == 0 {
        outcomes.lemma_filter_len(|b: bool| b);
    } else {
        let rest = outcomes.drop_last();
        assert(outcomes =~= rest.push(outcomes.last()));
        rest.lemma_filter_push(outcomes.last(), |b: bool| b);
        assert forall|i: int| 0 <= i < rest.len() implies rest[i] == passed by {
            assert(rest[i] == outcomes[i]);
        }
        lemma_count_of_constant(rest, passed);
    }
}

/// Where every resample of the history has the same outcome, a forecast
/// reports that outcome for every path: all paths passed, or none.
pub proof fn lemma_forecast_of_certain_outcome(
    r: SimulationResult,
    values: Seq<Fixed>,
    params: ChallengeParams,
    risk_fraction: Fixed,
    count: int,
    passed: bool,
)
    requires
        r.is_forecast(values, params, risk_fraction, count),
        forall|sample: Seq<Fixed>| #[trigger]
            is_resample(sample, values) ==> path_passes(sample, params, risk_fraction) == passed,
    ensures
        r.passed_simulations == if passed {
            count
        } else {
            0
        },
{
    let outcomes = choose|outcomes: Seq<bool>| #[trigger]
        r.summarizes(outcomes) && outcomes.len() == count && all_possible(
            outcomes,
            values,
            params,
            risk_fraction,
        );
    assert forall|i: int| 0 <= i < outcomes.len() implies outcomes[i] == passed by {
        assert(possible_outcome(values, params, risk_fraction, outcomes[i]));
        let sample = choose|sample: Seq<Fixed>| #[trigger]
            is_resample(sample, values) && path_passes(sample, params, risk_fraction)
                == outcomes[i];
        assert(is_resample(sample, values));
    }
    lemma_count_of_constant(outcomes, passed);
}

} // verus!
