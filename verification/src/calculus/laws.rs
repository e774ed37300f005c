//! The differentiation rules as laws: what the derivative of each kind of
//! node is, written out in full for every argument, independently of the
//! rule table the differentiator applies.

use vstd::prelude::*;

use crate::calculus::rules::{derivative, differentiable};
use crate::expression::model::{call1, call2, ExprModel, FunctionModel};

verus! {

/// Literals and constants have derivative zero; a variable has derivative
/// one with respect to itself and zero with respect to any other.
pub proof fn law_leaf_derivatives(e: ExprModel, var: Seq<char>)
    ensures
        e is Number ==> differentiable(e, var) && derivative(e, var) == ExprModel::Number(
            (0u16, seq![0u8], None),
        ),
        e is Constant ==> differentiable(e, var) && derivative(e, var) == ExprModel::Number(
            (0u16, seq![0u8], None),
        ),
        e matches ExprModel::Variable(name) ==> differentiable(e, var) && derivative(e, var) == (
        if name@ == var {
            ExprModel::Number((0u16, seq![1u8], None))
        } else {
            ExprModel::Number((0u16, seq![0u8], None))
        }),
{
}

/// The sum and difference rules: `(a + b)' = a' + b'`, `(a - b)' = a' - b'`.
pub proof fn law_sum_and_difference_rules(a: ExprModel, b: ExprModel, var: Seq<char>)
    ensures
        differentiable(call2(FunctionModel::Add, a, b), var) <==> differentiable(a, var)
            && differentiable(b, var),
        differentiable(call2(FunctionModel::Subtract, a, b), var) <==> differentiable(a, var)
            && differentiable(b, var),
        derivative(call2(FunctionModel::Add, a, b), var) == ExprModel::Function(
            FunctionModel::Add,
            seq![derivative(a, var), derivative(b, var)],
        ),
        derivative(call2(FunctionModel::Subtract, a, b), var) == ExprModel::Function(
            FunctionModel::Subtract,
            seq![derivative(a, var), derivative(b, var)],
        ),
{
}

/// The product rule: `(a * b)' = a' * b + a * b'`.
pub proof fn law_product_rule(a: ExprModel, b: ExprModel, var: Seq<char>)
    ensures
        differentiable(call2(FunctionModel::Multiply, a, b), var) <==> differentiable(a, var)
            && differentiable(b, var),
        derivative(call2(FunctionModel::Multiply, a, b), var) == ExprModel::Function(
            FunctionModel::Add,
            seq![
                ExprModel::Function(FunctionModel::Multiply, seq![derivative(a, var), b]),
                ExprModel::Function(FunctionModel::Multiply, seq![a, derivative(b, var)]),
            ],
        ),
{
}

/// The quotient rule: `(a / b)' = (a' * b - a * b') / (b * b)`.
pub proof fn law_quotient_rule(a: ExprModel, b: ExprModel, var: Seq<char>)
    ensures
        differentiable(call2(FunctionModel::Divide, a, b), var) <==> differentiable(a, var)
            && differentiable(b, var),
        derivative(call2(FunctionModel::Divide, a, b), var) == ExprModel::Function(
            FunctionModel::Divide,
            seq![
                ExprModel::Function(
                    FunctionModel::Subtract,
                    seq![
                        ExprModel::Function(FunctionModel::Multiply, seq![derivative(a, var), b]),
                        ExprModel::Function(FunctionModel::Multiply, seq![a, derivative(b, var)]),
                    ],
                ),
                ExprModel::Function(FunctionModel::Multiply, seq![b, b]),
            ],
        ),
{
}

/// The power rule with the exponent taken as constant:
/// `(a ^ k)' = (k * a ^ (k - 1)) * a'`; only the base need be
/// differentiable.
pub proof fn law_power_rule(a: ExprModel, k: ExprModel, var: Seq<char>)
    ensures
        differentiable(call2(FunctionModel::Power, a, k), var) <==> differentiable(a, var),
        derivative(call2(FunctionModel::Power, a, k), var) == ExprModel::Function(
            FunctionModel::Multiply,
            seq![
                ExprModel::Function(
                    FunctionModel::Multiply,
                    seq![
                        k,
                        ExprModel::Function(
                            FunctionModel::Power,
                            seq![
                                a,
                                ExprModel::Function(
                                    FunctionModel::Subtract,
                                    seq![k, ExprModel::Number((0u16, seq![1u8], None))],
                                ),
                            ],
                        ),
                    ],
                ),
                derivative(a, var),
            ],
        ),
{
}

/// The chain rule for the exponential and the logarithm:
/// `exp(u)' = u' * exp(u)` and `ln(u)' = u' / u`.
pub proof fn law_chain_rule_exp_and_ln(u: ExprModel, var: Seq<char>)
    ensures
        differentiable(call1(FunctionModel::Exp, u), var) <==> differentiable(u, var),
        differentiable(call1(FunctionModel::Ln, u), var) <==> differentiable(u, var),
        derivative(call1(FunctionModel::Exp, u), var) == ExprModel::Function(
            FunctionModel::Multiply,
            seq![derivative(u, var), ExprModel::Function(FunctionModel::Exp, seq![u])],
        ),
        derivative(call1(FunctionModel::Ln, u), var) == ExprModel::Function(
            FunctionModel::Divide,
            seq![derivative(u, var), u],
        ),
{
}

/// The chain rule for the trigonometric functions:
/// `sin(u)' = u' * cos(u)`, `cos(u)' = u' * -sin(u)` and
/// `tan(u)' = u' / (cos(u) * cos(u))`.
pub proof fn law_chain_rule_trigonometric(u: ExprModel, var: Seq<char>)
    ensures
        differentiable(call1(FunctionModel::Sin, u), var) <==> differentiable(u, var),
        differentiable(call1(FunctionModel::Cos, u), var) <==> differentiable(u, var),
        differentiable(call1(FunctionModel::Tan, u), var) <==> differentiable(u, var),
        derivative(call1(FunctionModel::Sin, u), var) == ExprModel::Function(
            FunctionModel::Multiply,
            seq![derivative(u, var), ExprModel::Function(FunctionModel::Cos, seq![u])],
        ),
        derivative(call1(FunctionModel::Cos, u), var) == ExprModel::Function(
            FunctionModel::Multiply,
            seq![
                derivative(u, var),
                ExprModel::Function(
                    FunctionModel::Negate,
                    seq![ExprModel::Function(FunctionModel::Sin, seq![u])],
                ),
            ],
        ),
        derivative(call1(FunctionModel::Tan, u), var) == ExprModel::Function(
            FunctionModel::Divide,
            seq![
                derivative(u, var),
                ExprModel::Function(
                    FunctionModel::Multiply,
                    seq![
                        ExprModel::Function(FunctionModel::Cos, seq![u]),
                        ExprModel::Function(FunctionModel::Cos, seq![u]),
                    ],
                ),
            ],
        ),
{
}

/// Negation and the square root: `(-u)' = -u'` and
/// `sqrt(u)' = u' / (2 * sqrt(u))`.
pub proof fn law_negation_and_root_rules(u: ExprModel, var: Seq<char>)
    ensures
        differentiable(call1(FunctionModel::Negate, u), var) <==> differentiable(u, var),
        differentiable(call1(FunctionModel::Sqrt, u), var) <==> differentiable(u, var),
        derivative(call1(FunctionModel::Negate, u), var) == ExprModel::Function(
            FunctionModel::Negate,
            seq![derivative(u, var)],
        ),
        derivative(call1(FunctionModel::Sqrt, u), var) == ExprModel::Function(
            FunctionModel::Divide,
            seq![
                derivative(u, var),
                ExprModel::Function(
                    FunctionModel::Multiply,
                    seq![
                        ExprModel::Number((0u16, seq![2u8], None)),
                        ExprModel::Function(FunctionModel::Sqrt, seq![u]),
                    ],
                ),
            ],
        ),
{
}

/// A function without a rule cannot be differentiated, whatever its
/// arguments: only the operators and the functions above have rules.
pub proof fn law_only_ruled_functions_differentiate(
    f: FunctionModel,
    args: Seq<ExprModel>,
    var: Seq<char>,
)
    requires
        !(f is Add || f is Subtract || f is Multiply || f is Divide || f is Power || f is Negate
            || f is Sqrt || f is Exp || f is Ln || f is Sin || f is Cos || f is Tan),
    ensures
        !differentiable(ExprModel::Function(f, args), var),
{
}

} // verus!
