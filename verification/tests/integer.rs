use arithma_core::integer::flag;
use arithma_core::integer::{
    ArithmaInteger, ArithmaIntegerConfig, ArithmaInternalInteger, MAX_POW_EXPONENT,
};

/// The value as an `f64`: most significant digit first, with the sign and
/// special-value flags applied.
fn to_f64(v: &ArithmaInternalInteger) -> f64 {
    if v.is_nan() {
        return f64::NAN;
    }
    if v.is_infinity() {
        return if v.is_negative() { f64::NEG_INFINITY } else { f64::INFINITY };
    }
    let mut acc = 0.0_f64;
    for d in v.value.iter().rev() {
        acc = acc * 256.0 + f64::from(*d);
    }
    if v.is_negative() {
        -acc
    } else {
        acc
    }
}

fn f(n: &ArithmaInteger) -> f64 {
    to_f64(&n.value)
}

fn i(n: i64) -> ArithmaInteger {
    ArithmaInteger::from_i64(n)
}

#[test]
fn zero_has_no_flags() {
    let z = ArithmaInteger::zero();
    assert_eq!(z.value.flags, 0);
}

#[test]
fn infinity_sets_flag() {
    let i = ArithmaInteger::infinity();
    assert!(i.value.is_infinity());
}

#[test]
fn nan_sets_flag() {
    let n = ArithmaInteger::nan();
    assert!(n.value.is_nan());
}

#[test]
fn negative_flag_round_trip() {
    let mut v = ArithmaInternalInteger::new();
    assert!(!v.is_negative());
    v.set_negative(true);
    assert!(v.is_negative());
    v.set_negative(false);
    assert!(!v.is_negative());
}

#[test]
fn from_u64_round_trips_through_f64() {
    let one = ArithmaInternalInteger::from_u64(1);
    assert_eq!(to_f64(&one), 1.0);
    let big = ArithmaInternalInteger::from_u64(1_000_000);
    assert_eq!(to_f64(&big), 1_000_000.0);
    let zero = ArithmaInternalInteger::from_u64(0);
    assert_eq!(to_f64(&zero), 0.0);
}

#[test]
fn from_i64_handles_sign() {
    let pos = ArithmaInternalInteger::from_i64(42);
    assert_eq!(to_f64(&pos), 42.0);
    let neg = ArithmaInternalInteger::from_i64(-42);
    assert!(neg.is_negative());
    assert_eq!(to_f64(&neg), -42.0);
}

#[test]
fn arithma_integer_to_f64_handles_specials() {
    assert!(f(&ArithmaInteger::nan()).is_nan());
    assert_eq!(f(&ArithmaInteger::infinity()), f64::INFINITY);
    assert_eq!(f(&ArithmaInteger::from_i64(-7)), -7.0);
}

#[test]
fn addition_crosses_the_byte_boundary() {
    let sum = i(255).checked_add(&i(1)).expect("255 + 1 must fold");
    assert_eq!(f(&sum), 256.0);
    assert_eq!(sum.value.value.len(), 2, "carry did not extend the digits");
}

#[test]
fn addition_handles_mixed_signs_both_ways() {
    assert_eq!(i(5).checked_add(&i(-3)).map(|n| f(&n)), Some(2.0));
    assert_eq!(i(3).checked_add(&i(-5)).map(|n| f(&n)), Some(-2.0));
    assert_eq!(i(-3).checked_add(&i(-5)).map(|n| f(&n)), Some(-8.0));
}

#[test]
fn a_value_plus_its_negation_is_positive_zero() {
    let zero = i(42).checked_add(&i(-42)).expect("must fold");
    assert!(zero.is_zero(), "42 + -42 must be zero");
    assert!(!zero.value.is_negative(), "zero must not carry the negative flag");
    assert_eq!(f(&zero), 0.0);
}

#[test]
fn subtraction_is_addition_of_the_negation() {
    assert_eq!(i(10).checked_sub(&i(4)).map(|n| f(&n)), Some(6.0));
    assert_eq!(i(4).checked_sub(&i(10)).map(|n| f(&n)), Some(-6.0));
    assert_eq!(i(-4).checked_sub(&i(-10)).map(|n| f(&n)), Some(6.0));
}

#[test]
fn multiplication_exceeds_what_an_i64_could_hold() {
    let two = i(2);
    let big = two.checked_pow(64).expect("2^64 must fold");
    assert_eq!(f(&big), 18_446_744_073_709_551_616.0);
    assert_eq!(big.value.value.len(), 9, "2^64 needs 9 base-256 digits");
}

#[test]
fn multiplication_carries_signs() {
    assert_eq!(i(-6).checked_mul(&i(7)).map(|n| f(&n)), Some(-42.0));
    assert_eq!(i(-6).checked_mul(&i(-7)).map(|n| f(&n)), Some(42.0));
    assert!(
        i(0).checked_mul(&i(-7)).map(|n| n.value.is_negative()) == Some(false),
        "zero must not come out negative"
    );
}

#[test]
fn division_folds_only_when_it_is_exact() {
    assert_eq!(i(12).checked_div_exact(&i(4)).map(|n| f(&n)), Some(3.0));
    assert_eq!(i(-12).checked_div_exact(&i(4)).map(|n| f(&n)), Some(-3.0));
    assert!(i(7).checked_div_exact(&i(2)).is_none(), "7/2 must be refused, not rounded");
    assert!(i(1).checked_div_exact(&i(0)).is_none(), "division by zero must be refused");
}

#[test]
fn division_is_exact_for_large_multi_digit_values() {
    let big = i(2).checked_pow(64).expect("2^64");
    let half = big.checked_div_exact(&i(2)).expect("2^64 / 2");
    assert_eq!(f(&half), 9_223_372_036_854_775_808.0);
    let round_trip = half.checked_mul(&i(2)).expect("re-multiply");
    assert_eq!(f(&round_trip), f(&big));
}

#[test]
fn exponent_and_digit_caps_are_enforced() {
    assert!(
        i(2).checked_pow(MAX_POW_EXPONENT + 1).is_none(),
        "an exponent past the cap must be refused, not attempted"
    );
    assert!(i(2).checked_pow(4096).is_none(), "a result past the digit cap must be refused");
    assert!(i(2).checked_pow(0).map(|n| n.is_one()) == Some(true));
}

#[test]
fn special_values_are_refused_rather_than_folded() {
    let nan = ArithmaInteger::nan();
    let inf = ArithmaInteger::infinity();
    assert!(nan.checked_add(&i(1)).is_none(), "NaN + 1 must not fold");
    assert!(inf.checked_add(&i(1)).is_none(), "inf + 1 must not fold");
    assert!(inf.checked_mul(&i(0)).is_none(), "inf * 0 must not fold");
    assert!(!nan.value.is_plain_integer());
}

#[test]
fn additive_operations_require_matching_units() {
    let metres = ArithmaInteger {
        value: ArithmaInternalInteger::from_i64(3),
        unit: Some("m".to_string()),
    };
    let seconds = ArithmaInteger {
        value: ArithmaInternalInteger::from_i64(4),
        unit: Some("s".to_string()),
    };
    let more_metres = ArithmaInteger {
        value: ArithmaInternalInteger::from_i64(4),
        unit: Some("m".to_string()),
    };
    assert!(metres.checked_add(&seconds).is_none());
    let sum = metres.checked_add(&more_metres).expect("matching units must fold");
    assert_eq!(f(&sum), 7.0);
    assert_eq!(sum.unit.as_deref(), Some("m"));
    assert!(metres.checked_mul(&more_metres).is_none());
}

#[test]
fn to_u32_rejects_values_that_do_not_fit() {
    assert_eq!(i(1024).to_u32(), Some(1024));
    assert_eq!(i(-1).to_u32(), None, "negative exponents are not supported");
    let big = i(2).checked_pow(40).expect("2^40");
    assert_eq!(big.to_u32(), None, "2^40 does not fit a u32");
}

#[test]
fn digits_are_little_endian_and_trimmed() {
    let v = ArithmaInternalInteger::from_u64(0x0102);
    assert_eq!(v.value, vec![0x02, 0x01]);
    let z = ArithmaInternalInteger::from_u64(0);
    assert_eq!(z.value, vec![0]);
    let m = ArithmaInternalInteger::from_i64(i64::MIN);
    assert!(m.is_negative());
    assert_eq!(m.value, vec![0, 0, 0, 0, 0, 0, 0, 0x80]);
}

#[test]
fn adding_then_subtracting_gives_back_the_first_operand() {
    let a = i(123_456_789);
    let b = i(-987_654_321_000);
    let back = a.checked_add(&b).unwrap().checked_sub(&b).unwrap();
    assert_eq!(back.value, a.value);
}

#[test]
fn multiplying_then_dividing_gives_back_the_first_operand() {
    let a = i(2).checked_pow(100).unwrap();
    let b = i(-3_000_001);
    let back = a.checked_mul(&b).unwrap().checked_div_exact(&b).unwrap();
    assert_eq!(back.value, a.value);
}

#[test]
fn addition_and_multiplication_commute() {
    let a = i(-77);
    let b = i(2).checked_pow(70).unwrap();
    assert_eq!(a.checked_add(&b).unwrap().value, b.checked_add(&a).unwrap().value);
    assert_eq!(a.checked_mul(&b).unwrap().value, b.checked_mul(&a).unwrap().value);
}

#[test]
fn negation_twice_is_the_identity_and_zero_stays_positive() {
    let a = i(-5);
    assert_eq!(a.checked_neg().unwrap().checked_neg().unwrap().value, a.value);
    assert_eq!(a.checked_neg().unwrap().value, i(5).value);
    let z = ArithmaInteger::zero().checked_neg().unwrap();
    assert!(!z.value.is_negative());
    assert!(ArithmaInteger::nan().checked_neg().is_none());
}

#[test]
fn anything_to_the_power_zero_is_one() {
    assert!(i(-9).checked_pow(0).unwrap().is_one());
    assert!(i(0).checked_pow(0).unwrap().is_one());
    assert_eq!(i(-2).checked_pow(3).unwrap().value, i(-8).value);
}

#[test]
fn flags_have_their_documented_bits() {
    assert_eq!(flag::NEGATIVE, 0x0001);
    assert_eq!(flag::INFINITY, 0x0004);
    assert_eq!(flag::NAN, 0x0008);
    assert_eq!(flag::RATIONAL, 0x0080);
    let cfg = ArithmaIntegerConfig::default();
    let _ = cfg;
}

#[test]
fn rational_and_infinite_values_are_not_plain() {
    let mut r = ArithmaInternalInteger::from_u64(3);
    r.flags |= flag::RATIONAL;
    assert!(r.is_rational());
    assert!(!r.is_plain_integer());
    assert!(ArithmaInternalInteger::from_u64(3).is_plain_integer());
    assert!(ArithmaInteger::infinity().to_u32().is_none());
}
