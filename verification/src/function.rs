//! The operator catalogue: every function an expression node can apply.

use vstd::prelude::*;

use crate::expression::ArithmaExpression;
use crate::integer::ArithmaInteger;

verus! {

/// Direction marker for one-sided limits.
#[derive(Debug, Clone, Copy, PartialEq, Eq, Hash, Structural)]
pub enum ArithmaLimitDirection {
    /// Approach from the left (x -> a-).
    Left,
    /// Approach from the right (x -> a+).
    Right,
    /// Two-sided.
    Both,
}

/// A function applied by an expression node to its arguments.
///
/// Covers the arithmetic operators, the elementary and special functions,
/// the calculus operators, the numerical solvers, series, statistics and
/// the geometric measures.
#[derive(Debug, Clone)]
pub enum ArithmaFunction {
    Add,
    Subtract,
    Multiply,
    Divide,
    Power,
    Negate,
    Sin,
    Cos,
    Tan,
    Cot,
    Sec,
    Csc,
    Asin,
    Acos,
    Atan,
    Atan2,
    Sinh,
    Cosh,
    Tanh,
    Asinh,
    Acosh,
    Atanh,
    Exp,
    Ln,
    Log,
    Log10,
    Log2,
    LogBase(ArithmaInteger),
    Pow(ArithmaInteger),
    Sqrt,
    Cbrt,
    Root(u64),
    Gamma,
    Beta,
    Erf,
    Factorial,
    Abs,
    Sign,
    Floor,
    Ceil,
    Round,
    Real,
    Imag,
    Conjugate,
    Arg,
    Derivative { var: String },
    PartialDerivative { var: String },
    Integral { var: String },
    DefiniteIntegral {
        var: String,
        lower_bound: Box<ArithmaExpression>,
        upper_bound: Box<ArithmaExpression>,
    },
    LaplacianOperator { vars: Vec<String> },
    GradientOperator { vars: Vec<String> },
    DivergenceOperator { vars: Vec<String> },
    CurlOperator { vars: Vec<String> },
    FindRoots {
        var: String,
        lower_bound: Box<ArithmaExpression>,
        upper_bound: Box<ArithmaExpression>,
    },
    NewtonRaphson { var: String, initial_guess: Box<ArithmaExpression> },
    FindCriticalPoints {
        var: String,
        lower_bound: Box<ArithmaExpression>,
        upper_bound: Box<ArithmaExpression>,
    },
    Optimize {
        var: String,
        lower_bound: Box<ArithmaExpression>,
        upper_bound: Box<ArithmaExpression>,
        maximize: bool,
    },
    Limit { var: String, approach: Box<ArithmaExpression>, direction: ArithmaLimitDirection },
    Summation {
        var: String,
        lower_bound: Box<ArithmaExpression>,
        upper_bound: Box<ArithmaExpression>,
    },
    Product {
        var: String,
        lower_bound: Box<ArithmaExpression>,
        upper_bound: Box<ArithmaExpression>,
    },
    Median,
    Mode,
    Quartiles,
    InterquartileRange,
    Percentile { percentile: ArithmaInteger },
    Mean,
    Sum,
    Variance,
    StandardDeviation,
    Min,
    Max,
    Range,
    CorrelationCoefficient,
    LinearRegression,
    StandardScore,
    Area,
    Volume,
    Perimeter,
    SurfaceArea,
}

/// The number of arguments a function takes: two for the binary operators
/// and the two-argument functions, three for the standard score, one per
/// variable for divergence and curl, and one for everything else.
pub open spec fn function_arity(f: ArithmaFunction) -> nat {
    match f {
        ArithmaFunction::Add | ArithmaFunction::Subtract | ArithmaFunction::Multiply
        | ArithmaFunction::Divide | ArithmaFunction::Power | ArithmaFunction::Beta
        | ArithmaFunction::Atan2 | ArithmaFunction::CorrelationCoefficient
        | ArithmaFunction::LinearRegression => 2,
        ArithmaFunction::StandardScore => 3,
        ArithmaFunction::DivergenceOperator { vars } => vars@.len(),
        ArithmaFunction::CurlOperator { vars } => vars@.len(),
        _ => 1,
    }
}

impl ArithmaFunction {
    /// Number of arguments this function takes.
    pub fn arity(&self) -> (n: usize)
        ensures
            n == function_arity(*self),
    {
        match self {
            ArithmaFunction::Add | ArithmaFunction::Subtract | ArithmaFunction::Multiply
            | ArithmaFunction::Divide | ArithmaFunction::Power | ArithmaFunction::Beta
            | ArithmaFunction::Atan2 | ArithmaFunction::CorrelationCoefficient
            | ArithmaFunction::LinearRegression => 2,
            ArithmaFunction::StandardScore => 3,
            ArithmaFunction::DivergenceOperator { vars } => vars.len(),
            ArithmaFunction::CurlOperator { vars } => vars.len(),
            _ => 1,
        }
    }

    /// Exact evaluation of this function on its arguments. No function has an
    /// exact rule here yet, so the answer is always "leave it symbolic".
    pub fn evaluate_exact(&self, args: &[ArithmaExpression]) -> (r: Option<ArithmaExpression>)
        ensures
            r is None,
    {
        None
    }
}

} // verus!

pub use self::ArithmaFunction as ArithmosFunction;
pub use self::ArithmaLimitDirection as ArithmosLimitDirection;
