use arithma_core::equation_solver::{ArithmaSolverStrategy, ArithmosSolverStrategy};
use arithma_core::external::registry::{ArithmosBackend, ArithmosExternalFunctionError};
use arithma_core::fourier::ArithmaFourierWindow;
use arithma_core::function::ArithmaLimitDirection;
use arithma_core::geometry::ArithmaIntersection;
use arithma_core::numerical::critical_points::ArithmaCriticalPointKind;
use arithma_core::numerical::methods::ArithmaNumericalMethod;
use arithma_core::numerical::{ArithmosCriticalPointKind, ArithmosNumericalMethod};
use arithma_core::{
    hello, version, ArithmosConstants, ArithmosExternalFunctionRegistry, ArithmosInteger,
};

#[test]
fn hello_returns_arithma() {
    assert_eq!(hello(), "arithma");
}

#[test]
fn version_is_non_empty() {
    assert!(!version().is_empty());
    assert_eq!(version(), "0.1.0");
}

#[test]
fn re_exports_resolve() {
    let _: Option<ArithmosInteger> = None;
    let _: Option<ArithmosConstants> = None;
}

#[test]
fn module_compiles() {
    assert!(true);
}

#[test]
fn default_strategy_is_auto() {
    assert_eq!(ArithmaSolverStrategy::default(), ArithmaSolverStrategy::Auto);
    assert_eq!(ArithmosSolverStrategy::default(), ArithmaSolverStrategy::Auto);
}

#[test]
fn kinds_are_distinct() {
    assert_ne!(ArithmaCriticalPointKind::Maximum, ArithmaCriticalPointKind::Minimum);
    assert_ne!(ArithmaCriticalPointKind::Saddle, ArithmaCriticalPointKind::Inflection);
    assert_ne!(ArithmaCriticalPointKind::Inflection, ArithmaCriticalPointKind::Inconclusive);
}

#[test]
fn methods_are_distinct() {
    assert_ne!(ArithmaNumericalMethod::Bisection, ArithmaNumericalMethod::NewtonRaphson);
}

#[test]
fn numerical_re_exports_resolve() {
    let _: Option<ArithmosNumericalMethod> = None;
    let _: Option<ArithmosCriticalPointKind> = None;
}

#[test]
fn small_enums_compare_by_variant() {
    assert_ne!(ArithmaLimitDirection::Left, ArithmaLimitDirection::Right);
    assert_eq!(ArithmaFourierWindow::Hann, ArithmaFourierWindow::Hann);
    assert_ne!(ArithmaFourierWindow::Blackman, ArithmaFourierWindow::BlackmanHarris);
    let _ = ArithmaIntersection;
}

struct StubBackend;

impl ArithmosBackend<i64> for StubBackend {
    fn name(&self) -> &'static str {
        "stub"
    }

    fn try_evaluate(&self, _expr: &i64) -> Result<i64, ArithmosExternalFunctionError> {
        Err(ArithmosExternalFunctionError::BackendUnavailable("stub".into()))
    }
}

struct Doubler;

impl ArithmosBackend<i64> for Doubler {
    fn name(&self) -> &'static str {
        "doubler"
    }

    fn try_evaluate(&self, expr: &i64) -> Result<i64, ArithmosExternalFunctionError> {
        expr.checked_mul(2).ok_or(ArithmosExternalFunctionError::EvaluationFailed("overflow".into()))
    }
}

#[test]
fn empty_registry_has_no_backends() {
    let r: ArithmosExternalFunctionRegistry<Box<dyn ArithmosBackend<i64>>> =
        ArithmosExternalFunctionRegistry::new();
    assert_eq!(r.backends().len(), 0);
}

#[test]
fn register_appends_backend() {
    let mut r: ArithmosExternalFunctionRegistry<Box<dyn ArithmosBackend<i64>>> =
        ArithmosExternalFunctionRegistry::new();
    r.register(Box::new(StubBackend));
    assert_eq!(r.backends().len(), 1);
    assert_eq!(r.backends()[0].name(), "stub");
}

#[test]
fn backends_come_back_in_registration_order() {
    let mut r: ArithmosExternalFunctionRegistry<Box<dyn ArithmosBackend<i64>>> =
        ArithmosExternalFunctionRegistry::default();
    r.register(Box::new(StubBackend));
    r.register(Box::new(Doubler));
    let names: Vec<&str> = r.backends().iter().map(|b| b.name()).collect();
    assert_eq!(names, vec!["stub", "doubler"]);
    assert!(matches!(
        r.backends()[0].try_evaluate(&1),
        Err(ArithmosExternalFunctionError::BackendUnavailable(_))
    ));
    assert_eq!(r.backends()[1].try_evaluate(&21).unwrap(), 42);
}
