use arithma_core::calculus::differentiation_iterative::ArithmaIterativeDifferentiator;
use arithma_core::calculus::differentiation::{
    check_calls_have_arguments, diff_chain, diff_product, diff_sum,
};
use arithma_core::calculus::{differentiate, differentiate_iterative};
use std::collections::HashMap;
use arithma_core::expression::ArithmaExpression;
use arithma_core::function::{ArithmaFunction, ArithmaLimitDirection};
use arithma_core::integer::ArithmaInteger;

/// A plain rendering of a tree, enough to compare shapes.
fn show(e: &ArithmaExpression) -> String {
    match e {
        ArithmaExpression::Number(n) => {
            let digits: Vec<String> = n.value.value.iter().map(|d| d.to_string()).collect();
            format!("#{}{}", if n.value.flags & 1 != 0 { "-" } else { "" }, digits.join("."))
        }
        ArithmaExpression::Constant { symbol, .. } => format!("const {symbol}"),
        ArithmaExpression::Variable(name) => name.clone(),
        ArithmaExpression::Function(f, args) => {
            let inner: Vec<String> = args.iter().map(show).collect();
            format!("{:?}({})", f, inner.join(", "))
        }
        other => format!("{other:?}"),
    }
}

fn x() -> ArithmaExpression {
    ArithmaExpression::var("x")
}

#[test]
fn calculus_module_exports_resolve() {
    let _: fn(&ArithmaExpression, &str) -> _ = differentiate;
    let _: fn(&ArithmaExpression, &str) -> _ = differentiate_iterative;
}

#[test]
fn binary_arithmetic_is_arity_two() {
    assert_eq!(ArithmaFunction::Add.arity(), 2);
    assert_eq!(ArithmaFunction::Multiply.arity(), 2);
    assert_eq!(ArithmaFunction::Power.arity(), 2);
}

#[test]
fn unary_transcendentals_are_arity_one() {
    assert_eq!(ArithmaFunction::Sin.arity(), 1);
    assert_eq!(ArithmaFunction::Exp.arity(), 1);
    assert_eq!(ArithmaFunction::Sqrt.arity(), 1);
}

#[test]
fn standard_score_is_arity_three() {
    assert_eq!(ArithmaFunction::StandardScore.arity(), 3);
}

#[test]
fn divergence_takes_one_argument_per_variable() {
    let vars = vec!["x".to_string(), "y".to_string(), "z".to_string()];
    assert_eq!(ArithmaFunction::DivergenceOperator { vars }.arity(), 3);
    assert_eq!(ArithmaFunction::Gamma.arity(), 1);
}

#[test]
fn derivative_of_the_variable_is_one() {
    let d = differentiate_iterative(&x(), "x").unwrap();
    assert_eq!(show(&d), "#1");
}

#[test]
fn derivative_of_another_variable_is_zero() {
    let d = differentiate_iterative(&ArithmaExpression::var("y"), "x").unwrap();
    assert_eq!(show(&d), "#0");
}

#[test]
fn derivative_of_a_literal_and_of_a_constant_is_zero() {
    let d = differentiate_iterative(&ArithmaExpression::from_i64(42), "x").unwrap();
    assert_eq!(show(&d), "#0");
    let pi = ArithmaExpression::constant("pi", Some("pi"), Some(3.14159f64.to_bits()), true);
    assert_eq!(show(&differentiate(&pi, "x").unwrap()), "#0");
}

#[test]
fn sum_and_difference_rules() {
    let e = ArithmaExpression::add(x(), ArithmaExpression::var("y"));
    assert_eq!(show(&differentiate_iterative(&e, "x").unwrap()), "Add(#1, #0)");
    let e = ArithmaExpression::sub(x(), x());
    assert_eq!(show(&differentiate_iterative(&e, "x").unwrap()), "Subtract(#1, #1)");
}

#[test]
fn product_rule() {
    let e = ArithmaExpression::mul(x(), ArithmaExpression::var("y"));
    assert_eq!(
        show(&differentiate_iterative(&e, "x").unwrap()),
        "Add(Multiply(#1, y), Multiply(x, #0))"
    );
}

#[test]
fn quotient_rule() {
    let e = ArithmaExpression::div(x(), ArithmaExpression::var("y"));
    assert_eq!(
        show(&differentiate_iterative(&e, "x").unwrap()),
        "Divide(Subtract(Multiply(#1, y), Multiply(x, #0)), Multiply(y, y))"
    );
}

#[test]
fn power_rule_of_x_squared() {
    let e = ArithmaExpression::pow(x(), ArithmaExpression::from_i64(2));
    assert_eq!(
        show(&differentiate_iterative(&e, "x").unwrap()),
        "Multiply(Multiply(#2, Power(x, Subtract(#2, #1))), #1)"
    );
}

#[test]
fn the_exponent_is_never_differentiated() {
    // The exponent holds a sum, which has no rule; the power rule takes it
    // as constant and copies it.
    let sum = ArithmaExpression::Sum {
        variable: "k".to_string(),
        start: Box::new(ArithmaExpression::from_i64(1)),
        end: Box::new(ArithmaExpression::from_i64(3)),
        expression: Box::new(ArithmaExpression::var("k")),
    };
    let e = ArithmaExpression::pow(x(), sum);
    assert!(differentiate_iterative(&e, "x").is_ok());
}

#[test]
fn chain_rules_of_the_unary_functions() {
    let cases = [
        (ArithmaExpression::sin(x()), "Multiply(#1, Cos(x))"),
        (ArithmaExpression::cos(x()), "Multiply(#1, Negate(Sin(x)))"),
        (ArithmaExpression::tan(x()), "Divide(#1, Multiply(Cos(x), Cos(x)))"),
        (ArithmaExpression::exp(x()), "Multiply(#1, Exp(x))"),
        (ArithmaExpression::ln(x()), "Divide(#1, x)"),
        (ArithmaExpression::sqrt(x()), "Divide(#1, Multiply(#2, Sqrt(x)))"),
        (ArithmaExpression::neg(x()), "Negate(#1)"),
    ];
    for (e, want) in cases.iter() {
        assert_eq!(show(&differentiate_iterative(e, "x").unwrap()), *want);
    }
}

#[test]
fn nested_chain_rule() {
    // d/dx sin(x * x) = (1*x + x*1) * cos(x * x)
    let e = ArithmaExpression::sin(ArithmaExpression::mul(x(), x()));
    assert_eq!(
        show(&differentiate_iterative(&e, "x").unwrap()),
        "Multiply(Add(Multiply(#1, x), Multiply(x, #1)), Cos(Multiply(x, x)))"
    );
}

#[test]
fn a_function_without_a_rule_is_refused() {
    let e = ArithmaExpression::func(ArithmaFunction::Gamma, vec![x()]);
    assert_eq!(
        differentiate_iterative(&e, "x").unwrap_err(),
        "differentiate: unsupported function"
    );
}

#[test]
fn a_binary_operator_with_the_wrong_arity_is_refused() {
    let e = ArithmaExpression::func(ArithmaFunction::Add, vec![x()]);
    assert_eq!(differentiate_iterative(&e, "x").unwrap_err(), "Add: expected 2 args");
    let e = ArithmaExpression::func(ArithmaFunction::Power, vec![x(), x(), x()]);
    assert_eq!(differentiate_iterative(&e, "x").unwrap_err(), "Power: expected 2 args");
}

#[test]
fn a_variant_without_a_rule_is_refused_naming_the_variable() {
    let e = ArithmaExpression::Limit {
        variable: "x".to_string(),
        approaching: Box::new(ArithmaExpression::zero()),
        expression: Box::new(x()),
        from_right: false,
    };
    assert_eq!(
        differentiate_iterative(&e, "x").unwrap_err(),
        "differentiate: unsupported variant for variable 'x'"
    );
}

#[test]
fn the_differentiator_can_be_reused() {
    let mut d = ArithmaIterativeDifferentiator::new();
    let first = d.differentiate(&ArithmaExpression::sin(x()), "x").unwrap();
    let second = d.differentiate(&x(), "x").unwrap();
    assert_eq!(show(&first), "Multiply(#1, Cos(x))");
    assert_eq!(show(&second), "#1");
}

#[test]
fn a_copy_keeps_every_field() {
    let bound = ArithmaFunction::DefiniteIntegral {
        var: "t".to_string(),
        lower_bound: Box::new(ArithmaExpression::from_i64(-3)),
        upper_bound: Box::new(ArithmaExpression::var("b")),
    };
    let e = ArithmaExpression::func(
        bound,
        vec![ArithmaExpression::func(
            ArithmaFunction::Limit {
                var: "h".to_string(),
                approach: Box::new(ArithmaExpression::zero()),
                direction: ArithmaLimitDirection::Right,
            },
            vec![ArithmaExpression::num(ArithmaInteger::from_i64(7))],
        )],
    );
    let c = e.clone();
    assert_eq!(format!("{e:?}"), format!("{c:?}"));
}

#[test]
fn is_constant_looks_through_function_arguments() {
    assert!(ArithmaExpression::add(ArithmaExpression::from_i64(1), ArithmaExpression::zero())
        .is_constant());
    assert!(!ArithmaExpression::sin(x()).is_constant());
    assert!(!ArithmaExpression::var("y").is_constant());
}

/// Numeric value of the trees these tests build, for checking derivatives
/// at a point.
fn value(e: &ArithmaExpression, bindings: &HashMap<String, f64>) -> f64 {
    match e {
        ArithmaExpression::Number(n) => {
            let mut acc = 0.0;
            for d in n.value.value.iter().rev() {
                acc = acc * 256.0 + f64::from(*d);
            }
            if n.value.flags & 1 != 0 {
                -acc
            } else {
                acc
            }
        }
        ArithmaExpression::Variable(name) => bindings[name],
        ArithmaExpression::Function(f, args) => {
            let v: Vec<f64> = args.iter().map(|a| value(a, bindings)).collect();
            match f {
                ArithmaFunction::Add => v[0] + v[1],
                ArithmaFunction::Subtract => v[0] - v[1],
                ArithmaFunction::Multiply => v[0] * v[1],
                ArithmaFunction::Divide => v[0] / v[1],
                ArithmaFunction::Power => v[0].powf(v[1]),
                ArithmaFunction::Negate => -v[0],
                ArithmaFunction::Sin => v[0].sin(),
                ArithmaFunction::Cos => v[0].cos(),
                other => panic!("no value for {other:?}"),
            }
        }
        other => panic!("no value for {other:?}"),
    }
}

fn at(name: &str, v: f64) -> HashMap<String, f64> {
    let mut b = HashMap::new();
    b.insert(name.to_string(), v);
    b
}

#[test]
fn derivative_of_variable_is_one() {
    let expr = ArithmaExpression::var("x");
    let d = differentiate_iterative(&expr, "x").unwrap();
    let v = value(&d, &HashMap::new());
    assert!((v - 1.0).abs() < 1e-12);
}

#[test]
fn derivative_of_constant_is_zero() {
    let expr = ArithmaExpression::from_i64(42);
    let d = differentiate_iterative(&expr, "x").unwrap();
    let v = value(&d, &HashMap::new());
    assert!(v.abs() < 1e-12);
}

#[test]
fn derivative_of_x_squared_at_three_is_six() {
    let expr = ArithmaExpression::pow(ArithmaExpression::var("x"), ArithmaExpression::from_i64(2));
    let d = differentiate_iterative(&expr, "x").unwrap();
    let v = value(&d, &at("x", 3.0));
    assert!((v - 6.0).abs() < 1e-9, "got {v}");
}

#[test]
fn derivative_of_sin_x_is_cos_x() {
    let expr = ArithmaExpression::sin(ArithmaExpression::var("x"));
    let d = differentiate_iterative(&expr, "x").unwrap();
    let v = value(&d, &at("x", 0.0));
    assert!((v - 1.0).abs() < 1e-9, "got {v}");
}

#[test]
fn diff_sum_evaluates() {
    // d/dx (x + x^2) = 1 + 2x, at x = 4 gives 9.
    let a = ArithmaExpression::var("x");
    let b = ArithmaExpression::pow(ArithmaExpression::var("x"), ArithmaExpression::from_i64(2));
    let d = diff_sum(&a, &b, "x");
    let v = value(&d, &at("x", 4.0));
    assert!((v - 9.0).abs() < 1e-9, "got {v}");
}

#[test]
fn diff_product_evaluates_product_rule() {
    // d/dx (x * x) = 1*x + x*1 = 2x, at x = 5 gives 10.
    let a = ArithmaExpression::var("x");
    let b = ArithmaExpression::var("x");
    let d = diff_product(&a, &b, "x");
    let v = value(&d, &at("x", 5.0));
    assert!((v - 10.0).abs() < 1e-9, "got {v}");
}

#[test]
fn differentiate_routes_to_iterative() {
    let e = ArithmaExpression::var("y");
    let d = differentiate(&e, "y").unwrap();
    let v = value(&d, &HashMap::new());
    assert!((v - 1.0).abs() < 1e-12);
}

#[test]
fn a_failed_derivative_counts_as_zero_in_the_sum_rule() {
    let gamma = ArithmaExpression::func(ArithmaFunction::Gamma, vec![x()]);
    assert_eq!(show(&diff_sum(&gamma, &x(), "x")), "Add(#0, #1)");
}

#[test]
fn the_chain_rule_rebuilds_the_outer_function() {
    let outer = ArithmaExpression::cos(ArithmaExpression::var("u"));
    let inner = ArithmaExpression::mul(x(), x());
    assert_eq!(
        show(&diff_chain(&outer, &inner, "x")),
        "Multiply(Add(Multiply(#1, x), Multiply(x, #1)), Negate(Sin(Multiply(x, x))))"
    );
    // An outer expression that is not one of the rebuilt functions gives zero.
    assert_eq!(show(&diff_chain(&x(), &inner, "x")), "#0");
    let outer = ArithmaExpression::func(ArithmaFunction::Abs, vec![x()]);
    assert_eq!(show(&diff_chain(&outer, &inner, "x")), "#0");
}

#[test]
fn zero_is_a_number() {
    let z = ArithmaExpression::zero();
    assert!(matches!(z, ArithmaExpression::Number(_)));
    assert!(z.is_constant());
}

#[test]
fn variable_is_not_constant() {
    let v = ArithmaExpression::var("x");
    assert!(!v.is_constant());
}

#[test]
fn the_argument_check_follows_the_differentiator() {
    let bare = ArithmaExpression::func(ArithmaFunction::Sin, vec![]);
    assert!(!check_calls_have_arguments(&bare));
    assert!(!check_calls_have_arguments(&ArithmaExpression::mul(x(), bare)));
    // The exponent is never reached, so a bare call there does no harm.
    let exponent = ArithmaExpression::func(ArithmaFunction::Cos, vec![]);
    assert!(check_calls_have_arguments(&ArithmaExpression::pow(x(), exponent)));
    assert!(check_calls_have_arguments(&ArithmaExpression::sin(x())));
    let gamma = ArithmaExpression::func(ArithmaFunction::Gamma, vec![x()]);
    assert!(check_calls_have_arguments(&gamma));
}
