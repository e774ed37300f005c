//! Differentiation entry points built on the iterative differentiator.

use vstd::prelude::*;

use crate::calculus::differentiation_iterative::{differentiate_iterative, ARITHMA_DIFF_NODE_CAP};
use crate::calculus::rules::{
    calls_have_arguments, derivative, differentiable, frames, is_binary_rule, is_unary_rule,
};
use crate::expression::model::{
    call1, call2, copy_expr, expr_models, lemma_expr_models, zero_model, ExprModel,
    FunctionModel,
};
use crate::expression::ArithmaExpression;
use crate::function::ArithmaFunction;

verus! {

/// Whether differentiating `e` succeeds.
pub open spec fn differentiates(e: ExprModel, var: Seq<char>) -> bool {
    differentiable(e, var) && frames(e) <= ARITHMA_DIFF_NODE_CAP
}

/// The derivative of `e`, or zero where differentiating it fails.
pub open spec fn derivative_or_zero(e: ExprModel, var: Seq<char>) -> ExprModel {
    if differentiates(e, var) {
        derivative(e, var)
    } else {
        zero_model()
    }
}

/// Differentiate `expr` with respect to `var`; the iterative differentiator
/// does the work.
pub fn differentiate(expr: &ArithmaExpression, var: &str) -> (r: Result<ArithmaExpression, String>)
    requires
        var@.len() > 0,
        calls_have_arguments(expr@),
    ensures
        r is Ok <==> differentiates(expr@, var@),
        r matches Ok(d) ==> d@ == derivative(expr@, var@),
{
    differentiate_iterative(expr, var)
}

/// The derivative, with zero standing in for a failure.
fn derivative_or_zero_of(expr: &ArithmaExpression, var: &str) -> (r: ArithmaExpression)
    requires
        var@.len() > 0,
        calls_have_arguments(expr@),
    ensures
        r@ == derivative_or_zero(expr@, var@),
{
    match differentiate(expr, var) {
        Ok(d) => d,
        Err(_) => ArithmaExpression::zero(),
    }
}

/// `a' + b'`, a failed derivative counting as zero.
pub fn diff_sum(a: &ArithmaExpression, b: &ArithmaExpression, var: &str) -> (r: ArithmaExpression)
    requires
        var@.len() > 0,
        calls_have_arguments(a@),
        calls_have_arguments(b@),
    ensures
        r@ == call2(
            FunctionModel::Add,
            derivative_or_zero(a@, var@),
            derivative_or_zero(b@, var@),
        ),
{
    let da = derivative_or_zero_of(a, var);
    let db = derivative_or_zero_of(b, var);
    ArithmaExpression::add(da, db)
}

/// The product rule `a' * b + a * b'`, a failed derivative counting as zero.
pub fn diff_product(a: &ArithmaExpression, b: &ArithmaExpression, var: &str) -> (r:
    ArithmaExpression)
    requires
        var@.len() > 0,
        calls_have_arguments(a@),
        calls_have_arguments(b@),
    ensures
        r@ == call2(
            FunctionModel::Add,
            call2(FunctionModel::Multiply, derivative_or_zero(a@, var@), b@),
            call2(FunctionModel::Multiply, a@, derivative_or_zero(b@, var@)),
        ),
{
    let da = derivative_or_zero_of(a, var);
    let db = derivative_or_zero_of(b, var);
    let left = ArithmaExpression::mul(da, copy_expr(b));
    let right = ArithmaExpression::mul(copy_expr(a), db);
    ArithmaExpression::add(left, right)
}

/// The unary functions the chain rule rebuilds around a new argument.
pub open spec fn is_chain_outer(f: FunctionModel) -> bool {
    f is Sin || f is Cos || f is Tan || f is Exp || f is Ln || f is Sqrt || f is Negate
}

/// The chain rule: the derivative of `outer`'s function applied to `inner`,
/// zero where `outer` is not one of the rebuilt unary functions or where
/// differentiating fails.
pub fn diff_chain(outer: &ArithmaExpression, inner: &ArithmaExpression, var: &str) -> (r:
    ArithmaExpression)
    requires
        var@.len() > 0,
        calls_have_arguments(inner@),
    ensures
        r@ == match outer@ {
            ExprModel::Function(f, _) => if is_chain_outer(f) {
                derivative_or_zero(call1(f, inner@), var@)
            } else {
                zero_model()
            },
            _ => zero_model(),
        },
{
    let rebuilt = match outer {
        ArithmaExpression::Function(func, args) => {
            proof {
                assert(outer@ == ExprModel::Function(func@, expr_models(args@)));
            }
            match func {
                ArithmaFunction::Sin => ArithmaExpression::sin(copy_expr(inner)),
                ArithmaFunction::Cos => ArithmaExpression::cos(copy_expr(inner)),
                ArithmaFunction::Tan => ArithmaExpression::tan(copy_expr(inner)),
                ArithmaFunction::Exp => ArithmaExpression::exp(copy_expr(inner)),
                ArithmaFunction::Ln => ArithmaExpression::ln(copy_expr(inner)),
                ArithmaFunction::Sqrt => ArithmaExpression::sqrt(copy_expr(inner)),
                ArithmaFunction::Negate => ArithmaExpression::neg(copy_expr(inner)),
                _ => {
                    return ArithmaExpression::zero();
                },
            }
        },
        _ => {
            return ArithmaExpression::zero();
        },
    };
    derivative_or_zero_of(&rebuilt, var)
}

/// Whether a function has a derivative rule taking two arguments, one
/// argument (powers and the unary functions), or none.
fn rule_kind(f: &ArithmaFunction) -> (k: u8)
    ensures
        k == (if is_binary_rule(f@) {
            2u8
        } else if f@ is Power {
            3u8
        } else if is_unary_rule(f@) {
            1u8
        } else {
            0u8
        }),
{
    match f {
        ArithmaFunction::Add | ArithmaFunction::Subtract | ArithmaFunction::Multiply
        | ArithmaFunction::Divide => 2,
        ArithmaFunction::Power => 3,
        ArithmaFunction::Negate | ArithmaFunction::Sqrt | ArithmaFunction::Exp
        | ArithmaFunction::Ln | ArithmaFunction::Sin | ArithmaFunction::Cos
        | ArithmaFunction::Tan => 1,
        _ => 0,
    }
}

/// Whether every function node that differentiating `expr` reaches has an
/// argument: the condition under which [`differentiate`] may be called.
pub fn check_calls_have_arguments(expr: &ArithmaExpression) -> (r: bool)
    ensures
        r == calls_have_arguments(expr@),
    decreases expr,
{
    match expr {
        ArithmaExpression::Function(f, args) => {
            proof {
                lemma_expr_models(args@);
                assert(expr@ == ExprModel::Function(f@, expr_models(args@)));
            }
            let n = args.len();
            if n == 0 {
                return false;
            }
            let kind = rule_kind(f);
            if kind == 2 && n == 2 {
                check_calls_have_arguments(&args[0]) && check_calls_have_arguments(&args[1])
            } else if (kind == 3 && n == 2) || kind == 1 {
                check_calls_have_arguments(&args[0])
            } else {
                true
            }
        },
        _ => true,
    }
}

} // verus!
