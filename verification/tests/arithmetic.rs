use arithma_core::arithmetic::{
    can_add_i64, can_multiply_i64, checked_add_i64, checked_div_exact_i64, checked_mul_i64,
    checked_sub_i64, ArithmosLosslessArithmetic,
};

#[test]
fn checked_mul_overflow_returns_none() {
    assert_eq!(checked_mul_i64(i64::MAX, 2), None);
}

#[test]
fn checked_mul_normal_works() {
    assert_eq!(checked_mul_i64(3, 4), Some(12));
}

#[test]
fn checked_add_normal_works() {
    assert_eq!(checked_add_i64(1, 2), Some(3));
}

#[test]
fn checked_sub_underflow_returns_none() {
    assert_eq!(checked_sub_i64(i64::MIN, 1), None);
}

#[test]
fn checked_div_exact_rejects_zero_divisor() {
    assert_eq!(checked_div_exact_i64(10, 0), None);
}

#[test]
fn checked_div_exact_rejects_non_exact() {
    assert_eq!(checked_div_exact_i64(10, 3), None);
}

#[test]
fn checked_div_exact_works_for_clean_divides() {
    assert_eq!(checked_div_exact_i64(10, 2), Some(5));
    assert_eq!(checked_div_exact_i64(0, 7), Some(0));
    assert_eq!(checked_div_exact_i64(-12, 4), Some(-3));
}

#[test]
fn i64_can_add_lossless_detects_overflow() {
    assert!(!(i64::MAX).can_add_lossless(&1));
    assert!((100_i64).can_add_lossless(&200));
}

#[test]
fn i64_can_multiply_lossless_detects_overflow() {
    assert!(!(i64::MAX).can_multiply_lossless(&2));
    assert!((100_i64).can_multiply_lossless(&3));
}

#[test]
fn i64_can_divide_lossless_rejects_inexact() {
    assert!(!(10_i64).can_divide_lossless(&3));
    assert!((10_i64).can_divide_lossless(&5));
}

#[test]
fn i64_can_divide_lossless_rejects_zero() {
    assert!(!(10_i64).can_divide_lossless(&0));
}

#[test]
fn i64_arithmetic_round_trips() {
    let a: i64 = 24;
    let b: i64 = 6;
    assert_eq!(a.add_lossless(&b), Some(30));
    assert_eq!(a.subtract_lossless(&b), Some(18));
    assert_eq!(a.multiply_lossless(&b), Some(144));
    assert_eq!(a.divide_lossless(&b), Some(4));
}

#[test]
fn i64_default_can_subtract_falls_through_to_add() {
    assert!((100_i64).can_subtract_lossless(&50));
    assert!(!(i64::MIN).can_subtract_lossless(&i64::MAX));
}

#[test]
fn checked_add_and_sub_stop_at_the_edges() {
    assert_eq!(checked_add_i64(i64::MAX, 1), None);
    assert_eq!(checked_add_i64(i64::MAX, 0), Some(i64::MAX));
    assert_eq!(checked_sub_i64(i64::MIN, -1), Some(i64::MIN + 1));
    assert_eq!(checked_mul_i64(i64::MIN, -1), None);
    assert_eq!(checked_mul_i64(-3, -4), Some(12));
}

#[test]
fn division_by_a_divisor_truncates_towards_nothing() {
    assert_eq!(checked_div_exact_i64(-12, -4), Some(3));
    assert_eq!(checked_div_exact_i64(12, -4), Some(-3));
    assert_eq!(checked_div_exact_i64(-7, 2), None);
    assert_eq!(checked_div_exact_i64(i64::MIN, 2), Some(i64::MIN / 2));
}

#[test]
fn can_helpers_agree_with_the_checked_operations() {
    for &(a, b) in &[(1_i64, 2_i64), (i64::MAX, 1), (i64::MIN, -1), (-5, 7), (0, i64::MIN)] {
        assert_eq!(can_add_i64(a, b), checked_add_i64(a, b).is_some());
        assert_eq!(can_multiply_i64(a, b), checked_mul_i64(a, b).is_some());
    }
}

#[test]
fn lossless_division_and_multiplication_undo_each_other() {
    let q = (84_i64).divide_lossless(&7).unwrap();
    assert_eq!(q.multiply_lossless(&7), Some(84));
    assert_eq!((i64::MIN).subtract_lossless(&1), None);
}

#[test]
fn the_quotient_that_does_not_fit_is_refused() {
    assert_eq!(checked_div_exact_i64(i64::MIN, -1), None);
    assert_eq!(checked_div_exact_i64(i64::MIN, 1), Some(i64::MIN));
    assert_eq!(checked_div_exact_i64(i64::MIN, 2), Some(i64::MIN / 2));
}
