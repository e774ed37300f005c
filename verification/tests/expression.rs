use arithma_core::expression::emit::{
    emit_call, latex_symbol, mathml_infix, power_frag, rpn, Frag, PREC_ADD, PREC_ATOM, PREC_MUL, PREC_POW,
};
use arithma_core::expression::iterative::{
    compare_magnitude, compare_numbers, significant_len, MAX_ITERATION_CEILING,
};
use arithma_core::expression::simplify::{run, run_compile_time, ArithmosSimplificationMethod};
use arithma_core::expression::{ArithmaSIPrefix, EmitTarget, SimplificationConfig};
use arithma_core::function::ArithmaFunction;
use arithma_core::integer::ArithmaInteger;
use std::cmp::Ordering;

fn frag(text: &str, prec: u8) -> Frag {
    Frag { text: text.to_string(), prec }
}

#[test]
fn default_config_is_usable() {
    let c = SimplificationConfig::default();
    assert!(c.max_iterations > 0, "a default of zero iterations makes the simplifier a no-op");
    assert!(c.max_iterations <= MAX_ITERATION_CEILING);
}

#[test]
fn compile_time_pass_returns_false_on_atom() {
    let mut expr = ArithmaInteger::zero();
    assert!(!run_compile_time(&mut expr));
    assert!(expr.is_zero());
}

#[test]
fn run_returns_false_on_atom() {
    let mut expr = String::from("x");
    let cfg = SimplificationConfig::default();
    assert!(!run(&mut expr, &cfg));
    assert_eq!(expr, "x");
}

#[test]
fn simplification_methods_are_distinct() {
    assert_ne!(ArithmosSimplificationMethod::Compiletime, ArithmosSimplificationMethod::Costed);
}

#[test]
fn si_prefix_symbols_are_ascii() {
    assert_eq!(ArithmaSIPrefix::Kilo.symbol(), "k");
    assert_eq!(ArithmaSIPrefix::Micro.symbol(), "u");
    assert_eq!(ArithmaSIPrefix::Deca.symbol(), "da");
    assert_eq!(ArithmaSIPrefix::NoPrefix.symbol(), "");
    assert_eq!(ArithmaSIPrefix::Yocto.symbol(), "y");
}

#[test]
fn text_powers_parenthesise_looser_operands() {
    let base = frag("a + b", PREC_ADD);
    let exp = frag("2", PREC_ATOM);
    let p = power_frag(&base, &exp, EmitTarget::Text);
    assert_eq!(p.text, "(a + b)^2");
    assert_eq!(p.prec, PREC_POW);
    let nested = power_frag(&frag("x", PREC_ATOM), &p, EmitTarget::Text);
    assert_eq!(nested.text, "x^((a + b)^2)");
}

#[test]
fn shader_powers_use_pow() {
    let p = power_frag(&frag("x", PREC_ATOM), &frag("y * z", PREC_MUL), EmitTarget::Glsl);
    assert_eq!(p.text, "pow(x, y * z)");
    assert_eq!(p.prec, PREC_ATOM);
    let h = power_frag(&frag("x", PREC_ATOM), &frag("3", PREC_ATOM), EmitTarget::Hlsl);
    assert_eq!(h.text, "pow(x, 3)");
}

#[test]
fn latex_mathml_and_rpn_powers() {
    let base = frag("a - b", PREC_ADD);
    let exp = frag("n + 1", PREC_ADD);
    assert_eq!(power_frag(&base, &exp, EmitTarget::Latex).text, "(a - b)^{n + 1}");
    assert_eq!(power_frag(&base, &exp, EmitTarget::MathMl).text, "<msup>a - bn + 1</msup>");
    assert_eq!(power_frag(&base, &exp, EmitTarget::EmlRpn).text, "a - b n + 1 ^");
}

#[test]
fn rpn_and_mathml_operators() {
    let kids = [frag("x", PREC_ATOM), frag("y", PREC_ATOM)];
    assert_eq!(rpn(&kids, "+").text, "x y +");
    let m = mathml_infix(&kids, "-");
    assert_eq!(m.text, "x<mo>-</mo>y");
    assert_eq!(m.prec, PREC_ADD);
}

#[test]
fn parentheses_only_when_needed() {
    let f = Frag::atom("x".to_string());
    assert_eq!(f.paren_if(PREC_ATOM), "x");
    let s = frag("x + y", PREC_ADD);
    assert_eq!(s.paren_if(PREC_MUL), "(x + y)");
    assert_eq!(s.paren_if(PREC_ADD), "x + y");
}

#[test]
fn latex_spells_the_named_constants() {
    assert_eq!(latex_symbol("\u{3c0}"), "\\pi");
    assert_eq!(latex_symbol("pi"), "\\pi");
    assert_eq!(latex_symbol("tau"), "\\tau");
    assert_eq!(latex_symbol("\u{221e}"), "\\infty");
    assert_eq!(latex_symbol("c"), "c");
}

#[test]
fn magnitudes_compare_by_value() {
    assert_eq!(significant_len(&[5, 0, 0]), 1);
    assert_eq!(significant_len(&[0, 0]), 0);
    assert_eq!(compare_magnitude(&[1, 0, 0], &[1]), Ordering::Equal);
    assert_eq!(compare_magnitude(&[0, 1], &[255]), Ordering::Greater);
    assert_eq!(compare_magnitude(&[2], &[3, 0]), Ordering::Less);
}

#[test]
fn numbers_order_negatives_first() {
    let a = ArithmaInteger::from_i64(-5);
    let b = ArithmaInteger::from_i64(3);
    assert_eq!(compare_numbers(&a, &b), Ordering::Less);
    assert_eq!(compare_numbers(&b, &a), Ordering::Greater);
    assert_eq!(compare_numbers(&b, &ArithmaInteger::from_i64(3)), Ordering::Equal);
    assert_eq!(
        compare_numbers(&ArithmaInteger::from_i64(-7), &ArithmaInteger::from_i64(-5)),
        Ordering::Less
    );
}

fn call(f: ArithmaFunction, kids: &[Frag], target: EmitTarget) -> Result<Frag, String> {
    emit_call(&f, kids, target, &frag("3", 5))
}

#[test]
fn emit_call_renders_sums_in_every_dialect() {
    let kids = [frag("x", 5), frag("y", 5)];
    assert_eq!(call(ArithmaFunction::Add, &kids, EmitTarget::Text).unwrap().text, "x + y");
    assert_eq!(call(ArithmaFunction::Add, &kids, EmitTarget::EmlRpn).unwrap().text, "x y +");
    assert_eq!(
        call(ArithmaFunction::Add, &kids, EmitTarget::MathMl).unwrap().text,
        "x<mo>+</mo>y"
    );
}

#[test]
fn emit_call_parenthesises_by_precedence() {
    let sum = frag("a + b", 1);
    let kids = [sum, frag("c", 5)];
    let prod = call(ArithmaFunction::Multiply, &kids, EmitTarget::Text).unwrap();
    assert_eq!(prod.text, "(a + b) * c");
    assert_eq!(prod.prec, 2);
    let right = [frag("c", 5), frag("a - b", 1)];
    assert_eq!(
        call(ArithmaFunction::Subtract, &right, EmitTarget::Text).unwrap().text,
        "c - (a - b)"
    );
    let latex = call(ArithmaFunction::Multiply, &kids, EmitTarget::Latex).unwrap();
    assert_eq!(latex.text, "(a + b) c");
}

#[test]
fn emit_call_fractions_negation_and_roots() {
    let kids = [frag("x", 5), frag("y", 5)];
    assert_eq!(
        call(ArithmaFunction::Divide, &kids, EmitTarget::Latex).unwrap().text,
        "\\frac{x}{y}"
    );
    assert_eq!(
        call(ArithmaFunction::Divide, &kids, EmitTarget::MathMl).unwrap().text,
        "<mfrac>xy</mfrac>"
    );
    let one = [frag("x + 1", 1)];
    assert_eq!(call(ArithmaFunction::Negate, &one, EmitTarget::Text).unwrap().text, "-(x + 1)");
    assert_eq!(call(ArithmaFunction::Negate, &one, EmitTarget::EmlRpn).unwrap().text, "x + 1 neg");
    assert_eq!(call(ArithmaFunction::Sqrt, &one, EmitTarget::Glsl).unwrap().text, "sqrt(x + 1)");
    assert_eq!(
        call(ArithmaFunction::Sqrt, &one, EmitTarget::Latex).unwrap().text,
        "\\sqrt{x + 1}"
    );
}

#[test]
fn emit_call_powers_use_the_given_exponent() {
    let base = [frag("x", 5)];
    let p = ArithmaFunction::Pow(ArithmaInteger::from_i64(3));
    assert_eq!(call(p, &base, EmitTarget::Glsl).unwrap().text, "pow(x, 3)");
    let two = [frag("x", 5), frag("2", 5)];
    assert_eq!(call(ArithmaFunction::Power, &two, EmitTarget::Text).unwrap().text, "x^2");
}

#[test]
fn emit_call_named_calls_and_shader_logarithm() {
    let one = [frag("x", 5)];
    assert_eq!(call(ArithmaFunction::Sin, &one, EmitTarget::Text).unwrap().text, "sin(x)");
    assert_eq!(call(ArithmaFunction::Ln, &one, EmitTarget::Glsl).unwrap().text, "log(x)");
    assert_eq!(call(ArithmaFunction::Ln, &one, EmitTarget::Text).unwrap().text, "ln(x)");
    assert_eq!(call(ArithmaFunction::Cos, &one, EmitTarget::Latex).unwrap().text, "\\cos{x}");
    assert_eq!(call(ArithmaFunction::Exp, &one, EmitTarget::EmlRpn).unwrap().text, "x exp");
    let two = [frag("a", 5), frag("b", 5)];
    assert_eq!(call(ArithmaFunction::Max, &two, EmitTarget::Text).unwrap().text, "max(a, b)");
    assert_eq!(
        call(ArithmaFunction::Min, &two, EmitTarget::MathMl).unwrap().text,
        "<mi>min</mi><mo>&#x2061;</mo><mrow><mo>(</mo>ab<mo>)</mo></mrow>"
    );
}

#[test]
fn emit_call_refuses_a_function_without_a_spelling() {
    let one = [frag("x", 5)];
    let err = call(ArithmaFunction::Gamma, &one, EmitTarget::Hlsl).unwrap_err();
    assert_eq!(err, "no Hlsl spelling for `Gamma`; add it to call_name");
    // An operator with the wrong number of arguments has no spelling either.
    assert!(call(ArithmaFunction::Add, &one, EmitTarget::Text).is_err());
}
