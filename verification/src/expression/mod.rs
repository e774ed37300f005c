//! # Expression
//!
//! `ArithmaExpression` is the abstract syntax tree at the heart of the
//! engine, with its mathematical [`model`]. Beside it stand the SI prefix
//! table, the simplification policy and the traits that express
//! simplification and code emission polymorphically, the canonical ordering
//! of integer literals ([`iterative`]), the simplification entry points
//! ([`simplify`]) and the fragment combinators of the emitter ([`emit`]).
//!
//! Floating-point payloads (a constant's cached value, a cache entry, the
//! sampling range of a Fourier approximation) are held as the IEEE-754 bit
//! patterns of the values, so the tree itself is exact data.

use vstd::prelude::*;

pub mod emit;
pub mod iterative;
pub mod model;
pub mod simplify;

use crate::function::ArithmaFunction;
use crate::integer::{ArithmaInteger, ArithmaInternalInteger};
use self::model::{
    call1, call2, copy_expr, digit_model, expr_model, expr_models, integer_model,
    lemma_expr_models, zero_model, ExprModel, FunctionModel,
};

verus! {

/// The symbolic expression tree.
#[derive(Debug)]
pub enum ArithmaExpression {
    /// Exact integer or rational literal.
    Number(ArithmaInteger),
    /// Named symbolic constant (pi, e, c, h, ...), with the bits of an
    /// optional cached value, an optional unit and an optional SI prefix.
    Constant {
        name: Option<String>,
        symbol: String,
        cached_value_bits: Option<u64>,
        allow_simplification: bool,
        unit: Option<String>,
        prefix: Option<String>,
    },
    /// A free variable referenced by name.
    Variable(String),
    /// A function applied to its arguments: the operators, the elementary
    /// and special functions and the calculus operators.
    Function(ArithmaFunction, Vec<ArithmaExpression>),
    /// Bounded summation of `expression` for `variable` from `start` to `end`.
    Sum {
        variable: String,
        start: Box<ArithmaExpression>,
        end: Box<ArithmaExpression>,
        expression: Box<ArithmaExpression>,
    },
    /// Limit of `expression` as `variable` approaches `approaching`;
    /// `from_right` marks the one-sided variant.
    Limit {
        variable: String,
        approaching: Box<ArithmaExpression>,
        expression: Box<ArithmaExpression>,
        from_right: bool,
    },
    /// Bounded product of `expression` for `variable` from `start` to `end`.
    Product {
        variable: String,
        start: Box<ArithmaExpression>,
        end: Box<ArithmaExpression>,
        expression: Box<ArithmaExpression>,
    },
    /// If-then-else.
    Conditional {
        condition: Box<ArithmaExpression>,
        then_expr: Box<ArithmaExpression>,
        else_expr: Box<ArithmaExpression>,
    },
    /// A cached result (its bits) with an explicit dirty flag.
    CachedValue { expr: Box<ArithmaExpression>, cached_bits: Option<u64>, dirty: bool },
    /// An expression marked for evaluation through a Fourier-series
    /// approximation over `variable`, sampled over the range whose end
    /// points' bits are `range_bits`.
    FourierOptimized {
        expr: Box<ArithmaExpression>,
        variable: Option<String>,
        range_bits: Option<(u64, u64)>,
    },
}

impl Clone for ArithmaExpression {
    /// A copy with the same model.
    fn clone(&self) -> (r: Self)
        ensures
            r@ == self@,
    {
        copy_expr(self)
    }
}

/// Whether a model mentions no free variable: literals and constants do not,
/// a variable does, a function does not when none of its arguments does, and
/// sums, limits and products always count as mentioning their variable.
pub open spec fn is_constant_model(e: ExprModel) -> bool
    decreases e,
{
    match e {
        ExprModel::Number(_) => true,
        ExprModel::Constant { .. } => true,
        ExprModel::Variable(_) => false,
        ExprModel::Function(_, args) => all_constant(args),
        ExprModel::Sum { .. } => false,
        ExprModel::Limit { .. } => false,
        ExprModel::Product { .. } => false,
        ExprModel::Conditional { condition, then_expr, else_expr } => is_constant_model(
            *condition,
        ) && is_constant_model(*then_expr) && is_constant_model(*else_expr),
        ExprModel::CachedValue { expr, .. } => is_constant_model(*expr),
        ExprModel::FourierOptimized { expr, .. } => is_constant_model(*expr),
    }
}

/// Whether no model of the sequence mentions a free variable.
pub open spec fn all_constant(s: Seq<ExprModel>) -> bool
    decreases s,
{
    if s.len() == 0 {
        true
    } else {
        is_constant_model(s[s.len() - 1]) && all_constant(s.subrange(0, s.len() - 1))
    }
}

/// `all_constant` says the same of every element.
proof fn lemma_all_constant(s: Seq<ExprModel>)
    ensures
        all_constant(s) == forall|i: int| 0 <= i < s.len() ==> is_constant_model(#[trigger] s[i]),
    decreases s.len(),
{
    if s.len() > 0 {
        let t = s.subrange(0, s.len() - 1);
        lemma_all_constant(t);
        assert forall|i: int| 0 <= i < t.len() implies t[i] == s[i] by {}
        if !all_constant(s) {
            if !is_constant_model(s[s.len() - 1]) {
            } else {
                let j = choose|j: int| 0 <= j < t.len() && !is_constant_model(#[trigger] t[j]);
                assert(!is_constant_model(s[j]));
            }
        }
    }
}

impl ArithmaExpression {
    /// Number literal from an `ArithmaInteger`.
    pub fn num(n: ArithmaInteger) -> (r: Self)
        ensures
            r@ == ExprModel::Number(integer_model(n)),
    {
        ArithmaExpression::Number(n)
    }

    /// The literal zero.
    pub fn zero() -> (r: Self)
        ensures
            r@ == zero_model(),
    {
        ArithmaExpression::Number(ArithmaInteger::zero())
    }

    /// A one-digit literal: flags clear, the single digit `k`, no unit.
    pub fn digit(k: u8) -> (r: Self)
        ensures
            r@ == digit_model(k),
    {
        let mut digits: Vec<u8> = Vec::new();
        digits.push(k);
        ArithmaExpression::Number(
            ArithmaInteger { value: ArithmaInternalInteger { flags: 0, value: digits }, unit: None },
        )
    }

    /// Number literal from an `i64`.
    pub fn from_i64(n: i64) -> (r: Self)
        ensures
            r matches ArithmaExpression::Number(v) && v.wf() && v.value.canonical()
                && v.int_value() == n && v.unit.is_none(),
    {
        ArithmaExpression::Number(ArithmaInteger::from_i64(n))
    }

    /// Number literal from a `u64`.
    pub fn from_u64(n: u64) -> (r: Self)
        ensures
            r matches ArithmaExpression::Number(v) && v.wf() && v.value.canonical()
                && v.int_value() == n && v.unit.is_none(),
    {
        ArithmaExpression::Number(ArithmaInteger::from_u64(n))
    }

    /// A free variable.
    pub fn var(name: &str) -> (r: Self)
        ensures
            r matches ArithmaExpression::Variable(v) && v@ == name@,
    {
        ArithmaExpression::Variable(name.to_string())
    }

    /// A named constant with no unit and no prefix.
    pub fn constant(
        symbol: &str,
        name: Option<&str>,
        value_bits: Option<u64>,
        allow_simplification: bool,
    ) -> (r: Self)
        ensures
            r matches ArithmaExpression::Constant {
                name: n,
                symbol: s,
                cached_value_bits: c,
                allow_simplification: a,
                unit: u,
                prefix: p,
            } && s@ == symbol@ && c == value_bits && a == allow_simplification && u is None
                && p is None && (n is Some <==> name is Some) && (n matches Some(t) ==> t@
                == name.unwrap()@),
    {
        let n = match name {
            Some(t) => Some(t.to_string()),
            None => None,
        };
        ArithmaExpression::Constant {
            name: n,
            symbol: symbol.to_string(),
            cached_value_bits: value_bits,
            allow_simplification,
            unit: None,
            prefix: None,
        }
    }

    /// A function applied to arguments.
    pub fn func(f: ArithmaFunction, args: Vec<ArithmaExpression>) -> (r: Self)
        ensures
            r@ == ExprModel::Function(f@, expr_models(args@)),
    {
        ArithmaExpression::Function(f, args)
    }

    /// `f(x)`.
    fn apply1(f: ArithmaFunction, x: ArithmaExpression) -> (r: Self)
        ensures
            r@ == call1(f@, x@),
    {
        let mut args: Vec<ArithmaExpression> = Vec::new();
        args.push(x);
        proof {
            lemma_expr_models(args@);
            assert(expr_models(args@) =~= seq![x@]);
        }
        ArithmaExpression::Function(f, args)
    }

    /// `f(x, y)`.
    fn apply2(f: ArithmaFunction, x: ArithmaExpression, y: ArithmaExpression) -> (r: Self)
        ensures
            r@ == call2(f@, x@, y@),
    {
        let mut args: Vec<ArithmaExpression> = Vec::new();
        args.push(x);
        args.push(y);
        proof {
            lemma_expr_models(args@);
            assert(expr_models(args@) =~= seq![x@, y@]);
        }
        ArithmaExpression::Function(f, args)
    }

    /// `x + y`.
    pub fn add(x: ArithmaExpression, y: ArithmaExpression) -> (r: Self)
        ensures
            r@ == call2(FunctionModel::Add, x@, y@),
    {
        Self::apply2(ArithmaFunction::Add, x, y)
    }

    /// `x - y`.
    pub fn sub(x: ArithmaExpression, y: ArithmaExpression) -> (r: Self)
        ensures
            r@ == call2(FunctionModel::Subtract, x@, y@),
    {
        Self::apply2(ArithmaFunction::Subtract, x, y)
    }

    /// `x * y`.
    pub fn mul(x: ArithmaExpression, y: ArithmaExpression) -> (r: Self)
        ensures
            r@ == call2(FunctionModel::Multiply, x@, y@),
    {
        Self::apply2(ArithmaFunction::Multiply, x, y)
    }

    /// `x / y`.
    pub fn div(x: ArithmaExpression, y: ArithmaExpression) -> (r: Self)
        ensures
            r@ == call2(FunctionModel::Divide, x@, y@),
    {
        Self::apply2(ArithmaFunction::Divide, x, y)
    }

    /// `x ^ y`.
    pub fn pow(x: ArithmaExpression, y: ArithmaExpression) -> (r: Self)
        ensures
            r@ == call2(FunctionModel::Power, x@, y@),
    {
        Self::apply2(ArithmaFunction::Power, x, y)
    }

    /// `-x`.
    pub fn neg(x: ArithmaExpression) -> (r: Self)
        ensures
            r@ == call1(FunctionModel::Negate, x@),
    {
        Self::apply1(ArithmaFunction::Negate, x)
    }

    /// The square root of `x`.
    pub fn sqrt(x: ArithmaExpression) -> (r: Self)
        ensures
            r@ == call1(FunctionModel::Sqrt, x@),
    {
        Self::apply1(ArithmaFunction::Sqrt, x)
    }

    /// `e ^ x`.
    pub fn exp(x: ArithmaExpression) -> (r: Self)
        ensures
            r@ == call1(FunctionModel::Exp, x@),
    {
        Self::apply1(ArithmaFunction::Exp, x)
    }

    /// The natural logarithm of `x`.
    pub fn ln(x: ArithmaExpression) -> (r: Self)
        ensures
            r@ == call1(FunctionModel::Ln, x@),
    {
        Self::apply1(ArithmaFunction::Ln, x)
    }

    /// The sine of `x`.
    pub fn sin(x: ArithmaExpression) -> (r: Self)
        ensures
            r@ == call1(FunctionModel::Sin, x@),
    {
        Self::apply1(ArithmaFunction::Sin, x)
    }

    /// The cosine of `x`.
    pub fn cos(x: ArithmaExpression) -> (r: Self)
        ensures
            r@ == call1(FunctionModel::Cos, x@),
    {
        Self::apply1(ArithmaFunction::Cos, x)
    }

    /// The tangent of `x`.
    pub fn tan(x: ArithmaExpression) -> (r: Self)
        ensures
            r@ == call1(FunctionModel::Tan, x@),
    {
        Self::apply1(ArithmaFunction::Tan, x)
    }

    /// True when the expression contains no free variables.
    pub fn is_constant(&self) -> (r: bool)
        ensures
            r == is_constant_model(self@),
        decreases self,
    {
        match self {
            ArithmaExpression::Number(_) => true,
            ArithmaExpression::Constant { .. } => true,
            ArithmaExpression::Variable(_) => false,
            ArithmaExpression::Function(f, args) => {
                proof {
                    lemma_expr_models(args@);
                }
                let mut i: usize = 0;
                while i < args.len()
                    invariant
                        i <= args@.len(),
                        *self == ArithmaExpression::Function(*f, *args),
                        expr_models(args@).len() == args@.len(),
                        forall|j: int|
                            0 <= j < args@.len() ==> #[trigger] expr_models(args@)[j]
                                == expr_model(args@[j]),
                        forall|j: int|
                            0 <= j < i ==> is_constant_model(#[trigger] expr_models(args@)[j]),
                    decreases args@.len() - i,
                {
                    proof {
                        assert(decreases_to!(args@ => args@[i as int]));
                        assert(decreases_to!(*args => args@));
                        assert(decreases_to!(*self => (*self)->1));
                        assert(decreases_to!(*self => args@[i as int]));
                    }
                    if !args[i].is_constant() {
                        assert(!is_constant_model(expr_models(args@)[i as int]));
                        assert(self@ == ExprModel::Function(f@, expr_models(args@)));
                        proof {
                            lemma_all_constant(expr_models(args@));
                        }
                        return false;
                    }
                    i = i + 1;
                }
                assert(self@ == ExprModel::Function(f@, expr_models(args@)));
                proof {
                    lemma_all_constant(expr_models(args@));
                }
                true
            },
            ArithmaExpression::Sum { .. } => false,
            ArithmaExpression::Limit { .. } => false,
            ArithmaExpression::Product { .. } => false,
            ArithmaExpression::Conditional { condition, then_expr, else_expr } => {
                condition.is_constant() && then_expr.is_constant() && else_expr.is_constant()
            },
            ArithmaExpression::CachedValue { expr, .. } => expr.is_constant(),
            ArithmaExpression::FourierOptimized { expr, .. } => expr.is_constant(),
        }
    }
}

/// SI unit prefixes spanning yocto (10^-24) through yotta (10^24).
///
/// The prefix is stored separately from a value to preserve symbolic intent:
/// `5 km` is distinct from `5000 m` in the output even though they evaluate
/// identically.
#[derive(Debug, Clone, Copy, PartialEq, Eq, Hash, Structural)]
pub enum ArithmaSIPrefix {
    Yotta,
    Zetta,
    Exa,
    Peta,
    Tera,
    Giga,
    Mega,
    Kilo,
    Hecto,
    Deca,
    /// No prefix: the bare unit (the `None` variant of the prefix list).
    NoPrefix,
    Deci,
    Centi,
    Milli,
    Micro,
    Nano,
    Pico,
    Femto,
    Atto,
    Zepto,
    Yocto,
}

/// The ASCII symbol of each prefix; micro is spelled `u`.
pub open spec fn prefix_symbol(p: ArithmaSIPrefix) -> Seq<char> {
    match p {
        ArithmaSIPrefix::Yotta => "Y"@,
        ArithmaSIPrefix::Zetta => "Z"@,
        ArithmaSIPrefix::Exa => "E"@,
        ArithmaSIPrefix::Peta => "P"@,
        ArithmaSIPrefix::Tera => "T"@,
        ArithmaSIPrefix::Giga => "G"@,
        ArithmaSIPrefix::Mega => "M"@,
        ArithmaSIPrefix::Kilo => "k"@,
        ArithmaSIPrefix::Hecto => "h"@,
        ArithmaSIPrefix::Deca => "da"@,
        ArithmaSIPrefix::NoPrefix => ""@,
        ArithmaSIPrefix::Deci => "d"@,
        ArithmaSIPrefix::Centi => "c"@,
        ArithmaSIPrefix::Milli => "m"@,
        ArithmaSIPrefix::Micro => "u"@,
        ArithmaSIPrefix::Nano => "n"@,
        ArithmaSIPrefix::Pico => "p"@,
        ArithmaSIPrefix::Femto => "f"@,
        ArithmaSIPrefix::Atto => "a"@,
        ArithmaSIPrefix::Zepto => "z"@,
        ArithmaSIPrefix::Yocto => "y"@,
    }
}

impl ArithmaSIPrefix {
    /// Standard symbol for this prefix, ASCII only.
    ///
    /// Micro is `"u"`, not the micro sign: the unit tables spell it `u`, and
    /// two spellings of micro would make the two disagree about what `um`
    /// denotes.
    pub fn symbol(&self) -> (r: &'static str)
        ensures
            r@ == prefix_symbol(*self),
    {
        match self {
            ArithmaSIPrefix::Yotta => "Y",
            ArithmaSIPrefix::Zetta => "Z",
            ArithmaSIPrefix::Exa => "E",
            ArithmaSIPrefix::Peta => "P",
            ArithmaSIPrefix::Tera => "T",
            ArithmaSIPrefix::Giga => "G",
            ArithmaSIPrefix::Mega => "M",
            ArithmaSIPrefix::Kilo => "k",
            ArithmaSIPrefix::Hecto => "h",
            ArithmaSIPrefix::Deca => "da",
            ArithmaSIPrefix::NoPrefix => "",
            ArithmaSIPrefix::Deci => "d",
            ArithmaSIPrefix::Centi => "c",
            ArithmaSIPrefix::Milli => "m",
            ArithmaSIPrefix::Micro => "u",
            ArithmaSIPrefix::Nano => "n",
            ArithmaSIPrefix::Pico => "p",
            ArithmaSIPrefix::Femto => "f",
            ArithmaSIPrefix::Atto => "a",
            ArithmaSIPrefix::Zepto => "z",
            ArithmaSIPrefix::Yocto => "y",
        }
    }
}

/// Simplification policy used by [`Simplify`].
#[derive(Debug, Clone)]
pub struct SimplificationConfig {
    /// Maximum iterations the simplifier will run before bailing.
    pub max_iterations: usize,
    /// If true, the simplifier may use cached values to drop precision-safe
    /// constants into literal form.
    pub allow_numeric_collapse: bool,
}

impl Default for SimplificationConfig {
    /// Usable defaults: 32 passes is far more than any fixpoint needs
    /// (folding converges in one pass per level of nesting) while still
    /// bounding the work. A default of zero would make the simplifier a
    /// no-op by construction.
    fn default() -> (r: Self)
        ensures
            r.max_iterations == 32,
            !r.allow_numeric_collapse,
    {
        SimplificationConfig { max_iterations: 32, allow_numeric_collapse: false }
    }
}

/// Simplify an expression in place or by value.
///
/// The `bool` returned by [`Simplify::simplify_in_place`] reports whether
/// anything was actually rewritten, so callers can implement fixed-point
/// loops cheaply.
pub trait Simplify: Sized {
    /// Returns a simplified copy of `self`.
    fn simplify(&self, config: &SimplificationConfig) -> Self;

    /// Simplify in place. Returns `true` if anything changed.
    fn simplify_in_place(&mut self, config: &SimplificationConfig) -> bool;
}

/// Codegen target for the [`Emit`] trait.
#[derive(Debug, Clone, Copy, PartialEq, Eq, Hash, Structural)]
pub enum EmitTarget {
    /// Plain mathematical text (e.g. `sin(x) + 2*y`).
    Text,
    /// LaTeX (e.g. `\sin x + 2y`).
    Latex,
    /// MathML.
    MathMl,
    /// GLSL, the renderer's target language.
    Glsl,
    /// HLSL, the alternate D3D shader target.
    Hlsl,
    /// Reverse-Polish notation, the format the EML evaluator expects.
    EmlRpn,
}

/// Emit an expression as source code in a target language.
pub trait Emit {
    /// Emit `self` as a string in the chosen target dialect.
    fn emit(&self, target: EmitTarget) -> Result<String, String>;
}

} // verus!

pub use self::ArithmaExpression as ArithmosExpression;
pub use self::ArithmaSIPrefix as ArithmosSIPrefix;
