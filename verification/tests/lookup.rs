use arithma_core::lookup::math_hash::{
    algebraic_ids, classify, derivative_ids, exponential_ids, integral_ids, limit_ids,
    logarithm_ids, sqrt_ids, sum_ids, MathIdKind,
};
use arithma_core::lookup::trig_hash::{angle_ids, angle_name};

#[test]
fn classify_algebraic_range() {
    assert_eq!(classify(algebraic_ids::ZERO_PLUS_X), Some(MathIdKind::Algebraic));
    assert_eq!(classify(algebraic_ids::ONE_POW_X), Some(MathIdKind::Algebraic));
}

#[test]
fn classify_integral_range() {
    assert_eq!(classify(integral_ids::INTEGRAL_X), Some(MathIdKind::Integral));
    assert_eq!(classify(integral_ids::INTEGRAL_SQRT_X), Some(MathIdKind::Integral));
}

#[test]
fn classify_derivative_range() {
    assert_eq!(classify(derivative_ids::DERIVATIVE_X), Some(MathIdKind::Derivative));
    assert_eq!(classify(derivative_ids::DERIVATIVE_CONSTANT), Some(MathIdKind::Derivative));
}

#[test]
fn classify_returns_none_outside_ranges() {
    assert_eq!(classify(0), None);
    assert_eq!(classify(999), None);
    assert_eq!(classify(8000), None);
    assert_eq!(classify(u32::MAX), None);
}

#[test]
fn legacy_collisions_preserved() {
    assert_eq!(limit_ids::LIMIT_SIN_X_OVER_X, logarithm_ids::LN_E);
    assert_eq!(sum_ids::SUM_LINEAR, exponential_ids::E_POW_ZERO);
}

#[test]
fn algebraic_ids_are_distinct_within_category() {
    let ids = [
        algebraic_ids::ZERO_PLUS_X,
        algebraic_ids::X_PLUS_ZERO,
        algebraic_ids::ZERO_TIMES_X,
        algebraic_ids::X_TIMES_ZERO,
        algebraic_ids::ONE_TIMES_X,
        algebraic_ids::X_TIMES_ONE,
        algebraic_ids::X_MINUS_X,
        algebraic_ids::X_DIVIDED_BY_X,
        algebraic_ids::X_DIVIDED_BY_ONE,
        algebraic_ids::ZERO_DIVIDED_BY_X,
        algebraic_ids::X_POW_ZERO,
        algebraic_ids::X_POW_ONE,
        algebraic_ids::ONE_POW_X,
    ];
    let mut seen = std::collections::HashSet::new();
    for id in ids {
        assert!(seen.insert(id));
    }
}

#[test]
fn id_ranges_match_pt_arithmos_contract() {
    assert_eq!(algebraic_ids::ZERO_PLUS_X, 2000);
    assert_eq!(integral_ids::INTEGRAL_X, 3000);
    assert_eq!(derivative_ids::DERIVATIVE_X, 4000);
    assert_eq!(limit_ids::LIMIT_SIN_X_OVER_X, 5000);
    assert_eq!(sum_ids::SUM_LINEAR, 6000);
    assert_eq!(sqrt_ids::SQRT_ZERO, 7000);
}

#[test]
fn ids_are_distinct() {
    let ids = [
        angle_ids::ZERO,
        angle_ids::PI_OVER_6,
        angle_ids::PI_OVER_4,
        angle_ids::PI_OVER_3,
        angle_ids::PI_OVER_2,
        angle_ids::TWO_PI_OVER_3,
        angle_ids::THREE_PI_OVER_4,
        angle_ids::FIVE_PI_OVER_6,
        angle_ids::PI,
        angle_ids::THREE_PI_OVER_2,
        angle_ids::TWO_PI,
    ];
    let mut seen = std::collections::HashSet::new();
    for id in ids {
        assert!(seen.insert(id), "duplicate angle id {id}");
    }
}

#[test]
fn ids_match_pt_arithmos_contract() {
    assert_eq!(angle_ids::ZERO, 1000);
    assert_eq!(angle_ids::PI_OVER_6, 1001);
    assert_eq!(angle_ids::PI_OVER_4, 1002);
    assert_eq!(angle_ids::PI_OVER_3, 1003);
    assert_eq!(angle_ids::PI_OVER_2, 1004);
    assert_eq!(angle_ids::PI, 1008);
    assert_eq!(angle_ids::TWO_PI, 1010);
}

#[test]
fn angle_name_round_trips() {
    assert_eq!(angle_name(angle_ids::ZERO), Some("0"));
    assert_eq!(angle_name(angle_ids::PI), Some("\u{3c0}"));
    assert_eq!(angle_name(angle_ids::TWO_PI), Some("2\u{3c0}"));
    assert_eq!(angle_name(0), None);
    assert_eq!(angle_name(9999), None);
}

#[test]
fn every_category_classifies_its_first_id() {
    assert_eq!(classify(limit_ids::LIMIT_SIN_X_OVER_X), Some(MathIdKind::Limit));
    assert_eq!(classify(sum_ids::SUM_LINEAR), Some(MathIdKind::Sum));
    assert_eq!(classify(sqrt_ids::SQRT_ZERO), Some(MathIdKind::Sqrt));
    assert_eq!(classify(1999), None);
    assert_eq!(classify(7099), Some(MathIdKind::Sqrt));
    assert_eq!(classify(7100), None);
}
