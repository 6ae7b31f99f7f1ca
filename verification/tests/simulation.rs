use risk_optima_core::fixed::Fixed;
use risk_optima_core::model::ChallengeParams;
use risk_optima_core::model::Direction;
use risk_optima_core::model::RiskError;
use risk_optima_core::model::Trade;
use risk_optima_core::ratio::Ratio;
use risk_optima_core::simulation::resample;
use risk_optima_core::simulation::run_monte_carlo_simulation;
use risk_optima_core::simulation::simulate_path;
use risk_optima_core::simulation::summarize;
use risk_optima_core::simulation::walk_path;

fn history(profits: &[i32]) -> Vec<Trade> {
    profits
        .iter()
        .map(|p| {
            Trade::new(
                "GBPUSD".to_string(),
                Direction::Buy,
                Fixed::from_int(1),
                Fixed::from_int(1),
                Fixed::from_int(1),
                Fixed::from_int(*p),
                None,
                None,
            )
        })
        .collect()
}

fn values(profits: &[i32]) -> Vec<Fixed> {
    profits.iter().map(|p| Fixed::from_int(*p)).collect()
}

fn rules(target: i32, daily: i32, overall: i32) -> ChallengeParams {
    ChallengeParams::new(
        Fixed::from_int(10_000),
        Fixed::from_int(target),
        Fixed::from_int(daily),
        Fixed::from_int(overall),
        5,
    )
}

fn full_risk() -> Fixed {
    Fixed::one()
}

#[test]
fn rules_are_valid_only_with_a_positive_account() {
    assert!(rules(10, 5, 10).is_valid());
    assert!(rules(0, 0, 0).is_valid());
    let no_account =
        ChallengeParams::new(Fixed::zero(), Fixed::from_int(10), Fixed::from_int(5), Fixed::from_int(10), 0);
    assert!(!no_account.is_valid());
    assert!(!rules(-1, 5, 10).is_valid());
    assert!(!rules(10, -1, 10).is_valid());
    assert!(!rules(10, 5, -1).is_valid());
}

#[test]
fn a_path_passes_when_it_reaches_the_target() {
    assert!(walk_path(&values(&[10]), &rules(10, 5, 10), full_risk()));
    assert!(walk_path(&values(&[5, 5]), &rules(10, 5, 10), full_risk()));
    // the walk stops at the target: the loss after it is never taken
    assert!(walk_path(&values(&[10, -50]), &rules(10, 5, 10), full_risk()));
}

#[test]
fn a_path_that_ends_short_of_the_target_fails() {
    assert!(!walk_path(&values(&[5, 4]), &rules(10, 5, 10), full_risk()));
}

#[test]
fn a_path_fails_on_a_daily_loss_breach() {
    assert!(!walk_path(&values(&[-6]), &rules(10, 5, 10), full_risk()));
    assert!(!walk_path(&values(&[-3, -3]), &rules(10, 5, 10), full_risk()));
    assert!(!walk_path(&values(&[-6, 50]), &rules(10, 5, 10), full_risk()));
    // exactly at the limit is no breach
    assert!(walk_path(&values(&[-5, 50]), &rules(10, 5, 10), full_risk()));
}

#[test]
fn a_path_fails_on_an_overall_loss_breach() {
    assert!(!walk_path(&values(&[-6, -6]), &rules(10, 50, 10), full_risk()));
    assert!(walk_path(&values(&[-6, 20]), &rules(10, 50, 10), full_risk()));
    // exactly at the limit is no breach
    assert!(walk_path(&values(&[-10, 50]), &rules(10, 50, 10), full_risk()));
    assert!(!walk_path(&values(&[-11, 50]), &rules(10, 50, 10), full_risk()));
}

#[test]
fn an_empty_path_passes_only_a_zero_target() {
    assert!(walk_path(&Vec::new(), &rules(0, 5, 10), full_risk()));
    assert!(!walk_path(&Vec::new(), &rules(10, 5, 10), full_risk()));
}

#[test]
fn the_daily_tally_accumulates_over_the_first_hundred_steps() {
    let mut sample = values(&[-1; 150]);
    sample.push(Fixed::from_int(2000));
    // 0.03 % lost per step reaches a 2 % daily limit at step 68
    assert!(!walk_path(&sample, &rules(10, 2, 50), Fixed::from_raw(30_000_000)));
}

#[test]
fn the_daily_tally_is_cleared_after_the_hundredth_step() {
    let mut sample = values(&[-1; 150]);
    sample.push(Fixed::from_int(2000));
    // 0.015 % lost per step stays inside the limit for 100 steps, and would
    // leave it near step 135 if the tally kept growing
    assert!(walk_path(&sample, &rules(10, 2, 50), Fixed::from_raw(15_000_000)));
}

#[test]
fn the_risk_fraction_scales_each_step() {
    // half of equity risked on +10 % gains 5 %
    assert!(!walk_path(&values(&[10]), &rules(10, 5, 10), Fixed::from_raw(500_000_000)));
    assert!(walk_path(&values(&[10]), &rules(5, 5, 10), Fixed::from_raw(500_000_000)));
    assert!(walk_path(&values(&[10, 10]), &rules(10, 5, 10), Fixed::from_raw(500_000_000)));
}

#[test]
fn a_resample_draws_its_values_from_the_history() {
    let source = values(&[3, -7, 11, 0, 5]);
    for _ in 0..50 {
        let sample = resample(&source);
        assert_eq!(sample.len(), source.len());
        assert!(sample.iter().all(|v| source.contains(v)));
    }
}

#[test]
fn a_resample_of_one_value_repeats_it() {
    let source = values(&[4]);
    assert_eq!(resample(&source), source);
}

#[test]
fn a_simulated_path_has_the_only_possible_outcome() {
    assert!(simulate_path(&values(&[10, 10, 10]), &rules(10, 5, 10), full_risk()));
    assert!(!simulate_path(&values(&[-6, -6, -6]), &rules(10, 5, 10), full_risk()));
}

#[test]
fn a_summary_counts_the_passed_paths() {
    let r = summarize(&vec![true, false, true, true]);
    assert_eq!(r.total_simulations, 4);
    assert_eq!(r.passed_simulations, 3);
    assert_eq!(r.pass_rate, Ratio { num: 3, den: 4 });
    let r = summarize(&vec![false]);
    assert_eq!(r.passed_simulations, 0);
    assert_eq!(r.pass_rate, Ratio { num: 0, den: 1 });
}

#[test]
fn simulation_refuses_an_empty_history() {
    let none: Vec<Trade> = Vec::new();
    let r = run_monte_carlo_simulation(&none, &rules(10, 5, 10), full_risk(), 10);
    assert_eq!(r.unwrap_err(), RiskError::EmptyInput);
}

#[test]
fn every_path_passes_when_every_trade_reaches_the_target() {
    let r = run_monte_carlo_simulation(&history(&[10, 12, 15]), &rules(10, 5, 10), full_risk(), 200)
        .unwrap();
    assert_eq!(r.total_simulations, 200);
    assert_eq!(r.passed_simulations, 200);
    assert_eq!(r.pass_rate, Ratio { num: 200, den: 200 });
}

#[test]
fn no_path_passes_when_every_trade_breaches_a_limit() {
    let r = run_monte_carlo_simulation(&history(&[-6, -8]), &rules(10, 5, 10), full_risk(), 200)
        .unwrap();
    assert_eq!(r.total_simulations, 200);
    assert_eq!(r.passed_simulations, 0);
    assert_eq!(r.pass_rate, Ratio { num: 0, den: 200 });
}

#[test]
fn counts_add_up_and_the_pass_rate_is_a_share() {
    let trades = history(&[10, -6, 3, -2, 8]);
    for n in [1usize, 7, 500] {
        let r = run_monte_carlo_simulation(&trades, &rules(10, 5, 10), full_risk(), n).unwrap();
        assert_eq!(r.total_simulations, n);
        assert!(r.passed_simulations <= n);
        assert_eq!(r.passed_simulations + (n - r.passed_simulations), r.total_simulations);
        assert_eq!(r.pass_rate, Ratio { num: r.passed_simulations as i128, den: n as i128 });
        let rate = r.pass_rate.num as f64 / r.pass_rate.den as f64;
        assert!((0.0..=1.0).contains(&rate));
    }
}

#[test]
fn both_outcomes_occur_when_the_first_draw_decides() {
    // the first step either reaches the target or breaches the daily limit
    let r = run_monte_carlo_simulation(&history(&[10, -6]), &rules(10, 5, 10), full_risk(), 2000)
        .unwrap();
    assert!(r.passed_simulations > 0);
    assert!(r.passed_simulations < 2000);
}

#[test]
fn repeated_large_runs_agree_on_the_pass_rate() {
    let trades = history(&[10, -6]);
    let first = run_monte_carlo_simulation(&trades, &rules(10, 5, 10), full_risk(), 20_000).unwrap();
    let second = run_monte_carlo_simulation(&trades, &rules(10, 5, 10), full_risk(), 20_000).unwrap();
    let a = first.passed_simulations as f64 / 20_000.0;
    let b = second.passed_simulations as f64 / 20_000.0;
    assert!((a - b).abs() < 0.05);
    assert!((a - 0.5).abs() < 0.05);
}

#[test]
fn the_analyses_chain_from_statistics_to_forecast() {
    let trades = history(&[12, -6, 15, -4, 11, -5]);
    let metrics = risk_optima_core::calculate_performance_metrics(&trades).unwrap();
    let half = Ratio::new(1, 2);
    assert!(risk_optima_core::kelly::kelly_is_representable(
        metrics.win_probability,
        metrics.win_loss_ratio,
        half
    ));
    let kelly = risk_optima_core::calculate_kelly_criterion(
        metrics.win_probability,
        metrics.win_loss_ratio,
        half,
    )
    .unwrap();
    // 1/2 - (1/2) / (24/10) = 7/24, halved
    assert_eq!(kelly.num * 48, 7 * kelly.den);
    let risk = kelly.to_fixed();
    assert_eq!(risk.raw, 145_833_333);
    let forecast =
        risk_optima_core::run_monte_carlo_simulation(&trades, &rules(10, 5, 10), risk, 300).unwrap();
    assert_eq!(forecast.total_simulations, 300);
    assert!(forecast.passed_simulations <= 300);
}
