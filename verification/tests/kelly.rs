use risk_optima_core::kelly::calculate_kelly_criterion;
use risk_optima_core::kelly::kelly_is_representable;
use risk_optima_core::model::RiskError;
use risk_optima_core::ratio::Ratio;

fn r(num: i128, den: i128) -> Ratio {
    Ratio::new(num, den)
}

#[test]
fn kelly_rejects_probabilities_outside_the_open_unit_interval() {
    for p in [r(0, 1), r(1, 1), r(-1, 10), r(11, 10)] {
        assert_eq!(
            calculate_kelly_criterion(p, r(2, 1), r(1, 1)),
            Err(RiskError::InvalidProbability)
        );
    }
}

#[test]
fn kelly_rejects_a_ratio_that_is_not_positive() {
    assert_eq!(calculate_kelly_criterion(r(3, 5), r(0, 1), r(1, 1)), Err(RiskError::InvalidRatio));
    assert_eq!(calculate_kelly_criterion(r(3, 5), r(-2, 1), r(1, 1)), Err(RiskError::InvalidRatio));
}

#[test]
fn kelly_reports_the_probability_error_first() {
    assert_eq!(
        calculate_kelly_criterion(r(0, 1), r(0, 1), r(1, 1)),
        Err(RiskError::InvalidProbability)
    );
}

#[test]
fn kelly_of_sixty_percent_at_two_to_one_is_forty_percent() {
    let k = calculate_kelly_criterion(r(3, 5), r(2, 1), r(1, 1)).unwrap();
    assert_eq!(k, Ratio { num: 4, den: 10 });
    assert_eq!(k.num as f64 / k.den as f64, 0.4);
}

#[test]
fn kelly_applies_the_multiplier() {
    // 1/2 - (1/2) / (5/2) = 3/10, halved
    let k = calculate_kelly_criterion(r(1, 2), r(5, 2), r(1, 2)).unwrap();
    assert_eq!(k, Ratio { num: 3, den: 20 });
}

#[test]
fn kelly_is_negative_without_an_edge() {
    // 1/4 - (3/4) / 1 = -1/2
    let k = calculate_kelly_criterion(r(1, 4), r(1, 1), r(1, 1)).unwrap();
    assert_eq!(k, Ratio { num: -2, den: 4 });
}

#[test]
fn kelly_representability_is_decided_before_the_call() {
    assert!(kelly_is_representable(r(3, 5), r(2, 1), r(1, 1)));
    // invalid inputs may always be passed on: the call reports the error
    assert!(kelly_is_representable(r(0, 1), r(i128::MAX, 1), r(i128::MAX, 1)));
    let big = 1i128 << 100;
    assert!(!kelly_is_representable(r(1, 2), r(big, 1), r(big, 1)));
    assert!(!kelly_is_representable(r(1, big), r(1, big), r(1, 1)));
    assert!(!kelly_is_representable(r(1, 2), r(1, 1), r(1, i128::MAX)));
    assert!(kelly_is_representable(r(1, 2), r(big, 3), r(5, 7)));
}

#[test]
fn each_refusal_has_its_message() {
    assert_eq!(RiskError::EmptyInput.message(), "No trades provided");
    assert_eq!(RiskError::InvalidProbability.message(), "Win probability must be between 0 and 1");
    assert_eq!(RiskError::InvalidRatio.message(), "Win/loss ratio must be positive");
}
