use risk_optima_core::fixed::Fixed;
use risk_optima_core::model::Direction;
use risk_optima_core::model::RiskError;
use risk_optima_core::model::Trade;
use risk_optima_core::performance::calculate_performance_metrics;
use risk_optima_core::ratio::Ratio;

fn trade(profit: i32) -> Trade {
    Trade::new(
        "EURUSD".to_string(),
        Direction::Buy,
        Fixed::from_int(1),
        Fixed::from_int(1),
        Fixed::from_int(1),
        Fixed::from_int(profit),
        None,
        None,
    )
}

fn trades(profits: &[i32]) -> Vec<Trade> {
    profits.iter().map(|p| trade(*p)).collect()
}

fn as_f64(r: Ratio) -> f64 {
    r.num as f64 / r.den as f64
}

const UNIT: i128 = 1_000_000_000;

#[test]
fn empty_history_is_refused() {
    let none: Vec<Trade> = Vec::new();
    assert_eq!(calculate_performance_metrics(&none).unwrap_err(), RiskError::EmptyInput);
}

#[test]
fn six_trade_history_has_the_expected_statistics() {
    let m = calculate_performance_metrics(&trades(&[100, -50, 80, -30, 120, -40])).unwrap();
    assert_eq!(m.total_trades, 6);
    assert_eq!(m.win_probability, Ratio { num: 3, den: 6 });
    assert_eq!(as_f64(m.win_probability), 0.5);
    assert_eq!(m.loss_probability, Ratio { num: 3, den: 6 });
    // medians 100 and 40, both doubled
    assert_eq!(m.win_loss_ratio, Ratio { num: 200 * UNIT, den: 80 * UNIT });
    assert_eq!(as_f64(m.win_loss_ratio), 2.5);
    assert_eq!(m.profit_factor, Ratio { num: 300 * UNIT, den: 120 * UNIT });
    assert_eq!(as_f64(m.profit_factor), 2.5);
    assert_eq!(m.avg_win, Ratio { num: 300 * UNIT, den: 3 * UNIT });
    assert_eq!(as_f64(m.avg_win), 100.0);
    assert_eq!(m.avg_loss, Ratio { num: -120 * UNIT, den: 3 * UNIT });
    assert_eq!(as_f64(m.avg_loss), -40.0);
    assert_eq!(m.expectancy, Ratio { num: 180 * UNIT, den: 6 * UNIT });
    assert_eq!(as_f64(m.expectancy), 30.0);
    // equity 100, 50, 130, 100, 220, 180: the deepest decline is 50
    assert_eq!(m.max_drawdown, Ratio { num: 50 * UNIT, den: UNIT });
    assert!(m.sharpe_ratio.is_none());
}

#[test]
fn total_trades_is_the_length_of_the_history() {
    for n in [1usize, 2, 17, 250] {
        let profits: Vec<i32> = (0..n as i32).map(|i| i % 7 - 3).collect();
        let m = calculate_performance_metrics(&trades(&profits)).unwrap();
        assert_eq!(m.total_trades, n);
    }
}

#[test]
fn probabilities_sum_to_one_without_a_flat_trade() {
    let m = calculate_performance_metrics(&trades(&[5, -3, 8, -1, 2])).unwrap();
    assert_eq!(m.win_probability, Ratio { num: 3, den: 5 });
    assert_eq!(m.loss_probability, Ratio { num: 2, den: 5 });
    assert_eq!(m.win_probability.num + m.loss_probability.num, m.win_probability.den);
}

#[test]
fn probabilities_sum_to_less_than_one_with_a_flat_trade() {
    let m = calculate_performance_metrics(&trades(&[5, 0, -3, 0])).unwrap();
    assert_eq!(m.total_trades, 4);
    assert_eq!(m.win_probability, Ratio { num: 1, den: 4 });
    assert_eq!(m.loss_probability, Ratio { num: 1, den: 4 });
    assert!(m.win_probability.num + m.loss_probability.num < m.win_probability.den);
    // the flat trades leave the averages alone
    assert_eq!(m.avg_win, Ratio { num: 5 * UNIT, den: UNIT });
    assert_eq!(m.avg_loss, Ratio { num: -3 * UNIT, den: UNIT });
    assert_eq!(m.expectancy, Ratio { num: 2 * UNIT, den: 4 * UNIT });
}

#[test]
fn drawdown_is_zero_for_a_curve_that_never_declines() {
    let m = calculate_performance_metrics(&trades(&[10, 5, 3])).unwrap();
    assert_eq!(m.max_drawdown, Ratio { num: 0, den: UNIT });
    let m = calculate_performance_metrics(&trades(&[0, 4, 0])).unwrap();
    assert_eq!(m.max_drawdown, Ratio { num: 0, den: UNIT });
}

#[test]
fn drawdown_is_measured_from_the_starting_balance_too() {
    // the curve starts at zero, which is a peak before any trade
    let m = calculate_performance_metrics(&trades(&[-4, -6, 20, -3])).unwrap();
    assert_eq!(m.max_drawdown, Ratio { num: 10 * UNIT, den: UNIT });
    let m = calculate_performance_metrics(&trades(&[-7])).unwrap();
    assert_eq!(m.max_drawdown, Ratio { num: 7 * UNIT, den: UNIT });
}

#[test]
fn drawdown_spans_several_trades() {
    // equity 10, 4, 9, 1, 12: the deepest decline is from 10 to 1
    let m = calculate_performance_metrics(&trades(&[10, -6, 5, -8, 11])).unwrap();
    assert_eq!(m.max_drawdown, Ratio { num: 9 * UNIT, den: UNIT });
}

#[test]
fn medians_of_even_counts_average_the_two_middle_values() {
    // wins 10, 20, 30, 40 and losses 2, 4: medians 25 and 3, both doubled
    let m = calculate_performance_metrics(&trades(&[40, -4, 10, 30, -2, 20])).unwrap();
    assert_eq!(m.win_loss_ratio, Ratio { num: 50 * UNIT, den: 6 * UNIT });
}

#[test]
fn medians_ignore_outliers() {
    let m = calculate_performance_metrics(&trades(&[1, 2, 1000, -1, -2, -900])).unwrap();
    assert_eq!(m.win_loss_ratio, Ratio { num: 4 * UNIT, den: 4 * UNIT });
    assert_eq!(m.profit_factor, Ratio { num: 1003 * UNIT, den: 903 * UNIT });
}

#[test]
fn ratios_fall_back_to_zero_without_losses() {
    let m = calculate_performance_metrics(&trades(&[10, 20, 5])).unwrap();
    assert_eq!(m.win_loss_ratio, Ratio { num: 0, den: 1 });
    assert_eq!(m.profit_factor, Ratio { num: 0, den: 1 });
    assert_eq!(m.avg_loss, Ratio { num: 0, den: 1 });
    assert_eq!(m.loss_probability, Ratio { num: 0, den: 3 });
    assert_eq!(m.avg_win, Ratio { num: 35 * UNIT, den: 3 * UNIT });
    assert_eq!(m.expectancy, Ratio { num: 35 * UNIT, den: 3 * UNIT });
}

#[test]
fn averages_fall_back_to_zero_without_wins() {
    let m = calculate_performance_metrics(&trades(&[-10, -20])).unwrap();
    assert_eq!(m.avg_win, Ratio { num: 0, den: 1 });
    assert_eq!(m.win_probability, Ratio { num: 0, den: 2 });
    assert_eq!(m.avg_loss, Ratio { num: -30 * UNIT, den: 2 * UNIT });
    assert_eq!(m.win_loss_ratio, Ratio { num: 0, den: 30 * UNIT });
    assert_eq!(m.profit_factor, Ratio { num: 0, den: 30 * UNIT });
    assert_eq!(m.expectancy, Ratio { num: -30 * UNIT, den: 2 * UNIT });
    assert_eq!(m.max_drawdown, Ratio { num: 30 * UNIT, den: UNIT });
}

#[test]
fn a_history_of_flat_trades_has_no_wins_and_no_losses() {
    let m = calculate_performance_metrics(&trades(&[0, 0, 0])).unwrap();
    assert_eq!(m.total_trades, 3);
    assert_eq!(m.win_probability, Ratio { num: 0, den: 3 });
    assert_eq!(m.loss_probability, Ratio { num: 0, den: 3 });
    assert_eq!(m.expectancy, Ratio { num: 0, den: 3 * UNIT });
    assert!(m.sharpe_ratio.is_none());
}

#[test]
fn expectancy_is_the_weighted_average_outcome() {
    let m = calculate_performance_metrics(&trades(&[100, -50, 80, -30, 120, -40])).unwrap();
    let expected =
        as_f64(m.win_probability) * as_f64(m.avg_win) - as_f64(m.loss_probability) * as_f64(m.avg_loss).abs();
    assert_eq!(as_f64(m.expectancy), expected);
}

#[test]
fn the_largest_amounts_do_not_overflow() {
    let extreme = |raw: i64| {
        Trade::new(
            "BTCUSD".to_string(),
            Direction::Sell,
            Fixed::from_int(1),
            Fixed::from_int(1),
            Fixed::from_int(1),
            Fixed::from_raw(raw),
            None,
            None,
        )
    };
    let history = vec![extreme(i64::MAX), extreme(i64::MIN), extreme(i64::MIN), extreme(i64::MAX)];
    let m = calculate_performance_metrics(&history).unwrap();
    let top = i64::MAX as i128;
    let bottom = -(i64::MIN as i128);
    assert_eq!(m.avg_win, Ratio { num: 2 * top, den: 2 * UNIT });
    assert_eq!(m.avg_loss, Ratio { num: -2 * bottom, den: 2 * UNIT });
    assert_eq!(m.win_loss_ratio, Ratio { num: 2 * top, den: 2 * bottom });
    assert_eq!(m.max_drawdown, Ratio { num: 2 * bottom, den: UNIT });
    assert_eq!(m.expectancy, Ratio { num: -2, den: 4 * UNIT });
}
