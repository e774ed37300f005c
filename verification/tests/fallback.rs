use arithma_core::fallback::{
    try_fallback, ArithmosFallbackFunction, ArithmosFallbackStats, ArithmosFallbackStrategy,
};

/// Share of external calls that succeeded, when there were any.
fn ratio(s: &ArithmosFallbackStats) -> Option<f64> {
    if s.external_calls == 0 {
        None
    } else {
        Some(s.external_successes as f64 / s.external_calls as f64)
    }
}

#[test]
fn default_strategy_is_symbolic() {
    assert_eq!(ArithmosFallbackStrategy::default(), ArithmosFallbackStrategy::Symbolic);
}

#[test]
fn stats_default_is_zero() {
    let s = ArithmosFallbackStats::default();
    assert_eq!(s.total_calls, 0);
    assert_eq!(s.external_calls, 0);
    assert_eq!(s.external_successes, 0);
    assert_eq!(s.fallback_calls, 0);
    assert_eq!(ratio(&s), None);
}

#[test]
fn stats_record_external_success() {
    let mut s = ArithmosFallbackStats::default();
    s.record_external_success();
    s.record_external_success();
    assert_eq!(s.total_calls, 2);
    assert_eq!(s.external_calls, 2);
    assert_eq!(s.external_successes, 2);
    assert_eq!(s.fallback_calls, 0);
    assert_eq!(ratio(&s), Some(1.0));
}

#[test]
fn stats_record_external_failure_then_fallback() {
    let mut s = ArithmosFallbackStats::default();
    s.record_external_success();
    s.record_external_failure_then_fallback();
    assert_eq!(s.total_calls, 2);
    assert_eq!(s.external_calls, 2);
    assert_eq!(s.external_successes, 1);
    assert_eq!(s.fallback_calls, 1);
    assert!((ratio(&s).unwrap() - 0.5).abs() < 1e-12);
}

#[test]
fn stats_record_fallback_only() {
    let mut s = ArithmosFallbackStats::default();
    s.record_fallback_only();
    assert_eq!(s.total_calls, 1);
    assert_eq!(s.external_calls, 0);
    assert_eq!(s.fallback_calls, 1);
    assert_eq!(ratio(&s), None);
}

#[test]
fn stats_saturating_add_does_not_overflow() {
    let mut s = ArithmosFallbackStats {
        total_calls: u64::MAX,
        external_calls: u64::MAX,
        external_successes: u64::MAX,
        fallback_calls: u64::MAX,
    };
    s.record_external_success();
    assert_eq!(s.total_calls, u64::MAX);
    assert_eq!(s.external_calls, u64::MAX);
    assert_eq!(s.external_successes, u64::MAX);
}

#[test]
fn stats_reset_zeros_everything() {
    let mut s = ArithmosFallbackStats::default();
    s.record_external_success();
    s.record_fallback_only();
    s.reset();
    assert_eq!(s, ArithmosFallbackStats::default());
}

#[test]
fn every_record_counts_one_evaluation_and_keeps_the_counters_nested() {
    let mut s = ArithmosFallbackStats::default();
    s.record_external_success();
    s.record_external_failure_then_fallback();
    s.record_fallback_only();
    s.record_fallback_only();
    assert_eq!(s.total_calls, 4);
    assert_eq!(s.total_calls, s.external_successes + s.fallback_calls);
    assert!(s.external_successes <= s.external_calls);
    assert!(s.external_calls <= s.total_calls);
    assert!(s.fallback_calls <= s.total_calls);
}

#[test]
fn try_fallback_keeps_the_strategy() {
    for strategy in [
        ArithmosFallbackStrategy::Numeric,
        ArithmosFallbackStrategy::Symbolic,
        ArithmosFallbackStrategy::Error,
    ] {
        assert_eq!(try_fallback(&"x + 1", strategy), strategy);
    }
}

/// Pretend "sin" function, to exercise the trait surface.
struct StubSin;

impl ArithmosFallbackFunction<f64> for StubSin {
    fn function_id(&self) -> &str {
        "stub_sin"
    }

    fn rust_implementation(&self, args: &[f64]) -> Result<f64, String> {
        if args.len() != 1 {
            return Err("stub_sin expects 1 arg".into());
        }
        Ok(args[0].sin())
    }
}

#[test]
fn trait_default_external_name_is_none() {
    let s = StubSin;
    assert!(s.external_function_name().is_none());
}

#[test]
fn trait_default_prefers_external() {
    let s = StubSin;
    assert!(s.prefer_external());
}

#[test]
fn trait_function_id_is_stable() {
    let s = StubSin;
    assert_eq!(s.function_id(), "stub_sin");
}

#[test]
fn trait_rust_implementation_works() {
    let s = StubSin;
    let r = s.rust_implementation(&[0.0]).unwrap();
    assert!(r.abs() < 1e-12);
    let r = s.rust_implementation(&[std::f64::consts::FRAC_PI_2]).unwrap();
    assert!((r - 1.0).abs() < 1e-12);
}

#[test]
fn trait_rust_implementation_validates_arity() {
    let s = StubSin;
    assert!(s.rust_implementation(&[]).is_err());
    assert!(s.rust_implementation(&[1.0, 2.0]).is_err());
}
