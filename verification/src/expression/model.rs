//! The mathematical model of an expression tree.
//!
//! An [`ArithmaExpression`] holds vectors, and two vectors with the same
//! elements are not the same value to the verifier. Its model reads every
//! vector as a sequence, so two expressions with equal models are the same
//! tree. Contracts about trees are stated over models, and [`copy_expr`] is
//! the copy that provably keeps the model.

use vstd::prelude::*;

use crate::expression::ArithmaExpression;
use crate::function::{ArithmaFunction, ArithmaLimitDirection};
use crate::integer::{ArithmaInteger, ArithmaInternalInteger};

verus! {

/// An integer literal's flags, digits and unit.
pub type IntegerModel = (u16, Seq<u8>, Option<String>);

/// `f(a)`.
pub open spec fn call1(f: FunctionModel, a: ExprModel) -> ExprModel {
    ExprModel::Function(f, seq![a])
}

/// `f(a, b)`.
pub open spec fn call2(f: FunctionModel, a: ExprModel, b: ExprModel) -> ExprModel {
    ExprModel::Function(f, seq![a, b])
}

/// The literal zero.
pub open spec fn zero_model() -> ExprModel {
    ExprModel::Number((0u16, seq![0u8], None))
}

/// A one-digit literal.
pub open spec fn digit_model(k: u8) -> ExprModel {
    ExprModel::Number((0u16, seq![k], None))
}

/// The model of an integer literal.
pub open spec fn integer_model(n: ArithmaInteger) -> IntegerModel {
    (n.value.flags, n.value.value@, n.unit)
}

/// The mathematical content of an [`ArithmaExpression`]: the same variants,
/// with argument vectors read as sequences of models.
pub enum ExprModel {
    Number(IntegerModel),
    Constant {
        name: Option<String>,
        symbol: String,
        cached_value_bits: Option<u64>,
        allow_simplification: bool,
        unit: Option<String>,
        prefix: Option<String>,
    },
    Variable(String),
    Function(FunctionModel, Seq<ExprModel>),
    Sum { variable: String, start: Box<ExprModel>, end: Box<ExprModel>, expression: Box<ExprModel> },
    Limit {
        variable: String,
        approaching: Box<ExprModel>,
        expression: Box<ExprModel>,
        from_right: bool,
    },
    Product {
        variable: String,
        start: Box<ExprModel>,
        end: Box<ExprModel>,
        expression: Box<ExprModel>,
    },
    Conditional { condition: Box<ExprModel>, then_expr: Box<ExprModel>, else_expr: Box<ExprModel> },
    CachedValue { expr: Box<ExprModel>, cached_bits: Option<u64>, dirty: bool },
    FourierOptimized {
        expr: Box<ExprModel>,
        variable: Option<String>,
        range_bits: Option<(u64, u64)>,
    },
}

/// The model of an expression.
pub open spec fn expr_model(e: ArithmaExpression) -> ExprModel
    decreases e,
{
    match e {
        ArithmaExpression::Number(n) => ExprModel::Number(integer_model(n)),
        ArithmaExpression::Constant {
            name,
            symbol,
            cached_value_bits,
            allow_simplification,
            unit,
            prefix,
        } => ExprModel::Constant {
            name,
            symbol,
            cached_value_bits,
            allow_simplification,
            unit,
            prefix,
        },
        ArithmaExpression::Variable(name) => ExprModel::Variable(name),
        ArithmaExpression::Function(f, args) => ExprModel::Function(
            function_model(f),
            expr_models(args@),
        ),
        ArithmaExpression::Sum { variable, start, end, expression } => ExprModel::Sum {
            variable,
            start: Box::new(expr_model(*start)),
            end: Box::new(expr_model(*end)),
            expression: Box::new(expr_model(*expression)),
        },
        ArithmaExpression::Limit { variable, approaching, expression, from_right } =>
            ExprModel::Limit {
            variable,
            approaching: Box::new(expr_model(*approaching)),
            expression: Box::new(expr_model(*expression)),
            from_right,
        },
        ArithmaExpression::Product { variable, start, end, expression } => ExprModel::Product {
            variable,
            start: Box::new(expr_model(*start)),
            end: Box::new(expr_model(*end)),
            expression: Box::new(expr_model(*expression)),
        },
        ArithmaExpression::Conditional { condition, then_expr, else_expr } =>
            ExprModel::Conditional {
            condition: Box::new(expr_model(*condition)),
            then_expr: Box::new(expr_model(*then_expr)),
            else_expr: Box::new(expr_model(*else_expr)),
        },
        ArithmaExpression::CachedValue { expr, cached_bits, dirty } => ExprModel::CachedValue {
            expr: Box::new(expr_model(*expr)),
            cached_bits,
            dirty,
        },
        ArithmaExpression::FourierOptimized { expr, variable, range_bits } =>
            ExprModel::FourierOptimized { expr: Box::new(expr_model(*expr)), variable, range_bits },
    }
}

/// The models of a sequence of expressions, element by element.
pub open spec fn expr_models(s: Seq<ArithmaExpression>) -> Seq<ExprModel>
    decreases s,
{
    if s.len() == 0 {
        Seq::empty()
    } else {
        expr_models(s.subrange(0, s.len() - 1)).push(expr_model(s[s.len() - 1]))
    }
}

/// `expr_models` keeps the length and maps each element.
pub proof fn lemma_expr_models(s: Seq<ArithmaExpression>)
    ensures
        expr_models(s).len() == s.len(),
        forall|i: int| 0 <= i < s.len() ==> #[trigger] expr_models(s)[i] == expr_model(s[i]),
    decreases s.len(),
{
    if s.len() > 0 {
        lemma_expr_models(s.subrange(0, s.len() - 1));
    }
}

/// Two sequences of expressions with equal element models have equal models.
pub proof fn lemma_expr_models_ext(s: Seq<ArithmaExpression>, t: Seq<ArithmaExpression>)
    requires
        s.len() == t.len(),
        forall|i: int| 0 <= i < s.len() ==> expr_model(#[trigger] s[i]) == expr_model(t[i]),
    ensures
        expr_models(s) == expr_models(t),
{
    lemma_expr_models(s);
    lemma_expr_models(t);
    assert(expr_models(s) =~= expr_models(t));
}

impl View for ArithmaExpression {
    type V = ExprModel;

    open spec fn view(&self) -> ExprModel {
        expr_model(*self)
    }
}

impl View for ArithmaFunction {
    type V = FunctionModel;

    open spec fn view(&self) -> FunctionModel {
        function_model(*self)
    }
}

/// A copy of an integer literal with the same flags, digits and unit.
pub fn copy_integer(n: &ArithmaInteger) -> (r: ArithmaInteger)
    ensures
        integer_model(r) == integer_model(*n),
{
    let mut digits: Vec<u8> = Vec::new();
    let mut i: usize = 0;
    while i < n.value.value.len()
        invariant
            i <= n.value.value@.len(),
            digits@ == n.value.value@.subrange(0, i as int),
        decreases n.value.value@.len() - i,
    {
        digits.push(n.value.value[i]);
        i = i + 1;
    }
    assert(n.value.value@.subrange(0, n.value.value@.len() as int) =~= n.value.value@);
    let unit = match &n.unit {
        Some(u) => Some(u.clone()),
        None => None,
    };
    ArithmaInteger { value: ArithmaInternalInteger { flags: n.value.flags, value: digits }, unit }
}

/// A copy of a list of names.
pub fn copy_texts(v: &Vec<String>) -> (r: Vec<String>)
    ensures
        r@ == v@,
{
    let mut out: Vec<String> = Vec::new();
    let mut i: usize = 0;
    while i < v.len()
        invariant
            i <= v@.len(),
            out@ == v@.subrange(0, i as int),
        decreases v@.len() - i,
    {
        out.push(v[i].clone());
        i = i + 1;
    }
    assert(v@.subrange(0, v@.len() as int) =~= v@);
    out
}

/// A copy of an optional name.
pub fn copy_opt_text(o: &Option<String>) -> (r: Option<String>)
    ensures
        r == *o,
{
    match o {
        Some(s) => Some(s.clone()),
        None => None,
    }
}

/// A copy of an expression tree with the same model.
pub fn copy_expr(e: &ArithmaExpression) -> (r: ArithmaExpression)
    ensures
        r@ == e@,
    decreases e,
{
    match e {
        ArithmaExpression::Number(n) => ArithmaExpression::Number(copy_integer(n)),
        ArithmaExpression::Constant {
            name,
            symbol,
            cached_value_bits,
            allow_simplification,
            unit,
            prefix,
        } => ArithmaExpression::Constant {
            name: copy_opt_text(name),
            symbol: symbol.clone(),
            cached_value_bits: *cached_value_bits,
            allow_simplification: *allow_simplification,
            unit: copy_opt_text(unit),
            prefix: copy_opt_text(prefix),
        },
        ArithmaExpression::Variable(name) => ArithmaExpression::Variable(name.clone()),
        ArithmaExpression::Function(f, args) => {
            let g = copy_function(f);
            let mut out: Vec<ArithmaExpression> = Vec::new();
            let mut i: usize = 0;
            while i < args.len()
                invariant
                    i <= args@.len(),
                    *e == ArithmaExpression::Function(*f, *args),
                    out@.len() == i,
                    forall|j: int| 0 <= j < i ==> expr_model(#[trigger] out@[j]) == expr_model(
                        args@[j],
                    ),
                decreases args@.len() - i,
            {
                proof {
                    assert(decreases_to!(args@ => args@[i as int]));
                    assert(decreases_to!(*args => args@));
                    assert(decreases_to!(*e => (*e)->1));
                    assert(decreases_to!(*e => args@[i as int]));
                }
                let c = copy_expr(&args[i]);
                out.push(c);
                i = i + 1;
            }
            proof {
                lemma_expr_models_ext(out@, args@);
            }
            ArithmaExpression::Function(g, out)
        },
        ArithmaExpression::Sum { variable, start, end, expression } => ArithmaExpression::Sum {
            variable: variable.clone(),
            start: Box::new(copy_expr(start)),
            end: Box::new(copy_expr(end)),
            expression: Box::new(copy_expr(expression)),
        },
        ArithmaExpression::Limit { variable, approaching, expression, from_right } =>
            ArithmaExpression::Limit {
            variable: variable.clone(),
            approaching: Box::new(copy_expr(approaching)),
            expression: Box::new(copy_expr(expression)),
            from_right: *from_right,
        },
        ArithmaExpression::Product { variable, start, end, expression } =>
            ArithmaExpression::Product {
            variable: variable.clone(),
            start: Box::new(copy_expr(start)),
            end: Box::new(copy_expr(end)),
            expression: Box::new(copy_expr(expression)),
        },
        ArithmaExpression::Conditional { condition, then_expr, else_expr } =>
            ArithmaExpression::Conditional {
            condition: Box::new(copy_expr(condition)),
            then_expr: Box::new(copy_expr(then_expr)),
            else_expr: Box::new(copy_expr(else_expr)),
        },
        ArithmaExpression::CachedValue { expr, cached_bits, dirty } =>
            ArithmaExpression::CachedValue {
            expr: Box::new(copy_expr(expr)),
            cached_bits: *cached_bits,
            dirty: *dirty,
        },
        ArithmaExpression::FourierOptimized { expr, variable, range_bits } =>
            ArithmaExpression::FourierOptimized {
            expr: Box::new(copy_expr(expr)),
            variable: copy_opt_text(variable),
            range_bits: *range_bits,
        },
    }
}

/// The mathematical content of an [`ArithmaFunction`]: the same variants,
/// with vectors read as sequences and nested expressions as their models.
pub enum FunctionModel {
    Add,
    Subtract,
    Multiply,
    Divide,
    Power,
    Negate,
    Sin,
    Cos,
    Tan,
    Cot,
    Sec,
    Csc,
    Asin,
    Acos,
    Atan,
    Atan2,
    Sinh,
    Cosh,
    Tanh,
    Asinh,
    Acosh,
    Atanh,
    Exp,
    Ln,
    Log,
    Log10,
    Log2,
    Sqrt,
    Cbrt,
    Gamma,
    Beta,
    Erf,
    Factorial,
    Abs,
    Sign,
    Floor,
    Ceil,
    Round,
    Real,
    Imag,
    Conjugate,
    Arg,
    Median,
    Mode,
    Quartiles,
    InterquartileRange,
    Mean,
    Sum,
    Variance,
    StandardDeviation,
    Min,
    Max,
    Range,
    CorrelationCoefficient,
    LinearRegression,
    StandardScore,
    Area,
    Volume,
    Perimeter,
    SurfaceArea,
    LogBase(IntegerModel),
    Pow(IntegerModel),
    Root(u64),
    Derivative { var: String },
    PartialDerivative { var: String },
    Integral { var: String },
    DefiniteIntegral { var: String, lower_bound: Box<ExprModel>, upper_bound: Box<ExprModel> },
    FindRoots { var: String, lower_bound: Box<ExprModel>, upper_bound: Box<ExprModel> },
    FindCriticalPoints { var: String, lower_bound: Box<ExprModel>, upper_bound: Box<ExprModel> },
    Summation { var: String, lower_bound: Box<ExprModel>, upper_bound: Box<ExprModel> },
    Product { var: String, lower_bound: Box<ExprModel>, upper_bound: Box<ExprModel> },
    LaplacianOperator { vars: Seq<String> },
    GradientOperator { vars: Seq<String> },
    DivergenceOperator { vars: Seq<String> },
    CurlOperator { vars: Seq<String> },
    NewtonRaphson { var: String, initial_guess: Box<ExprModel> },
    Optimize {
        var: String,
        lower_bound: Box<ExprModel>,
        upper_bound: Box<ExprModel>,
        maximize: bool,
    },
    Limit { var: String, approach: Box<ExprModel>, direction: ArithmaLimitDirection },
    Percentile { percentile: IntegerModel },
}

/// The model of a function.
pub open spec fn function_model(f: ArithmaFunction) -> FunctionModel
    decreases f,
{
    match f {
        ArithmaFunction::Add => FunctionModel::Add,
        ArithmaFunction::Subtract => FunctionModel::Subtract,
        ArithmaFunction::Multiply => FunctionModel::Multiply,
        ArithmaFunction::Divide => FunctionModel::Divide,
        ArithmaFunction::Power => FunctionModel::Power,
        ArithmaFunction::Negate => FunctionModel::Negate,
        ArithmaFunction::Sin => FunctionModel::Sin,
        ArithmaFunction::Cos => FunctionModel::Cos,
        ArithmaFunction::Tan => FunctionModel::Tan,
        ArithmaFunction::Cot => FunctionModel::Cot,
        ArithmaFunction::Sec => FunctionModel::Sec,
        ArithmaFunction::Csc => FunctionModel::Csc,
        ArithmaFunction::Asin => FunctionModel::Asin,
        ArithmaFunction::Acos => FunctionModel::Acos,
        ArithmaFunction::Atan => FunctionModel::Atan,
        ArithmaFunction::Atan2 => FunctionModel::Atan2,
        ArithmaFunction::Sinh => FunctionModel::Sinh,
        ArithmaFunction::Cosh => FunctionModel::Cosh,
        ArithmaFunction::Tanh => FunctionModel::Tanh,
        ArithmaFunction::Asinh => FunctionModel::Asinh,
        ArithmaFunction::Acosh => FunctionModel::Acosh,
        ArithmaFunction::Atanh => FunctionModel::Atanh,
        ArithmaFunction::Exp => FunctionModel::Exp,
        ArithmaFunction::Ln => FunctionModel::Ln,
        ArithmaFunction::Log => FunctionModel::Log,
        ArithmaFunction::Log10 => FunctionModel::Log10,
        ArithmaFunction::Log2 => FunctionModel::Log2,
        ArithmaFunction::Sqrt => FunctionModel::Sqrt,
        ArithmaFunction::Cbrt => FunctionModel::Cbrt,
        ArithmaFunction::Gamma => FunctionModel::Gamma,
        ArithmaFunction::Beta => FunctionModel::Beta,
        ArithmaFunction::Erf => FunctionModel::Erf,
        ArithmaFunction::Factorial => FunctionModel::Factorial,
        ArithmaFunction::Abs => FunctionModel::Abs,
        ArithmaFunction::Sign => FunctionModel::Sign,
        ArithmaFunction::Floor => FunctionModel::Floor,
        ArithmaFunction::Ceil => FunctionModel::Ceil,
        ArithmaFunction::Round => FunctionModel::Round,
        ArithmaFunction::Real => FunctionModel::Real,
        ArithmaFunction::Imag => FunctionModel::Imag,
        ArithmaFunction::Conjugate => FunctionModel::Conjugate,
        ArithmaFunction::Arg => FunctionModel::Arg,
        ArithmaFunction::Median => FunctionModel::Median,
        ArithmaFunction::Mode => FunctionModel::Mode,
        ArithmaFunction::Quartiles => FunctionModel::Quartiles,
        ArithmaFunction::InterquartileRange => FunctionModel::InterquartileRange,
        ArithmaFunction::Mean => FunctionModel::Mean,
        ArithmaFunction::Sum => FunctionModel::Sum,
        ArithmaFunction::Variance => FunctionModel::Variance,
        ArithmaFunction::StandardDeviation => FunctionModel::StandardDeviation,
        ArithmaFunction::Min => FunctionModel::Min,
        ArithmaFunction::Max => FunctionModel::Max,
        ArithmaFunction::Range => FunctionModel::Range,
        ArithmaFunction::CorrelationCoefficient => FunctionModel::CorrelationCoefficient,
        ArithmaFunction::LinearRegression => FunctionModel::LinearRegression,
        ArithmaFunction::StandardScore => FunctionModel::StandardScore,
        ArithmaFunction::Area => FunctionModel::Area,
        ArithmaFunction::Volume => FunctionModel::Volume,
        ArithmaFunction::Perimeter => FunctionModel::Perimeter,
        ArithmaFunction::SurfaceArea => FunctionModel::SurfaceArea,
        ArithmaFunction::LogBase(n) => FunctionModel::LogBase(integer_model(n)),
        ArithmaFunction::Pow(n) => FunctionModel::Pow(integer_model(n)),
        ArithmaFunction::Root(k) => FunctionModel::Root(k),
        ArithmaFunction::Derivative { var } => FunctionModel::Derivative { var },
        ArithmaFunction::PartialDerivative { var } => FunctionModel::PartialDerivative { var },
        ArithmaFunction::Integral { var } => FunctionModel::Integral { var },
        ArithmaFunction::DefiniteIntegral { var, lower_bound, upper_bound } => FunctionModel::DefiniteIntegral {
            var,
            lower_bound: Box::new(expr_model(*lower_bound)),
            upper_bound: Box::new(expr_model(*upper_bound)),
        },
        ArithmaFunction::FindRoots { var, lower_bound, upper_bound } => FunctionModel::FindRoots {
            var,
            lower_bound: Box::new(expr_model(*lower_bound)),
            upper_bound: Box::new(expr_model(*upper_bound)),
        },
        ArithmaFunction::FindCriticalPoints { var, lower_bound, upper_bound } => FunctionModel::FindCriticalPoints {
            var,
            lower_bound: Box::new(expr_model(*lower_bound)),
            upper_bound: Box::new(expr_model(*upper_bound)),
        },
        ArithmaFunction::Summation { var, lower_bound, upper_bound } => FunctionModel::Summation {
            var,
            lower_bound: Box::new(expr_model(*lower_bound)),
            upper_bound: Box::new(expr_model(*upper_bound)),
        },
        ArithmaFunction::Product { var, lower_bound, upper_bound } => FunctionModel::Product {
            var,
            lower_bound: Box::new(expr_model(*lower_bound)),
            upper_bound: Box::new(expr_model(*upper_bound)),
        },
        ArithmaFunction::LaplacianOperator { vars } => FunctionModel::LaplacianOperator { vars: vars@ },
        ArithmaFunction::GradientOperator { vars } => FunctionModel::GradientOperator { vars: vars@ },
        ArithmaFunction::DivergenceOperator { vars } => FunctionModel::DivergenceOperator { vars: vars@ },
        ArithmaFunction::CurlOperator { vars } => FunctionModel::CurlOperator { vars: vars@ },
        ArithmaFunction::NewtonRaphson { var, initial_guess } => FunctionModel::NewtonRaphson {
            var,
            initial_guess: Box::new(expr_model(*initial_guess)),
        },
        ArithmaFunction::Optimize { var, lower_bound, upper_bound, maximize } => FunctionModel::Optimize {
            var,
            lower_bound: Box::new(expr_model(*lower_bound)),
            upper_bound: Box::new(expr_model(*upper_bound)),
            maximize,
        },
        ArithmaFunction::Limit { var, approach, direction } => FunctionModel::Limit {
            var,
            approach: Box::new(expr_model(*approach)),
            direction,
        },
        ArithmaFunction::Percentile { percentile } => FunctionModel::Percentile {
            percentile: integer_model(percentile),
        },
    }
}

/// A copy of a function, equal to it in every field.
pub fn copy_function(f: &ArithmaFunction) -> (r: ArithmaFunction)
    ensures
        function_model(r) == function_model(*f),
    decreases f,
{
    match f {
        ArithmaFunction::Add => ArithmaFunction::Add,
        ArithmaFunction::Subtract => ArithmaFunction::Subtract,
        ArithmaFunction::Multiply => ArithmaFunction::Multiply,
        ArithmaFunction::Divide => ArithmaFunction::Divide,
        ArithmaFunction::Power => ArithmaFunction::Power,
        ArithmaFunction::Negate => ArithmaFunction::Negate,
        ArithmaFunction::Sin => ArithmaFunction::Sin,
        ArithmaFunction::Cos => ArithmaFunction::Cos,
        ArithmaFunction::Tan => ArithmaFunction::Tan,
        ArithmaFunction::Cot => ArithmaFunction::Cot,
        ArithmaFunction::Sec => ArithmaFunction::Sec,
        ArithmaFunction::Csc => ArithmaFunction::Csc,
        ArithmaFunction::Asin => ArithmaFunction::Asin,
        ArithmaFunction::Acos => ArithmaFunction::Acos,
        ArithmaFunction::Atan => ArithmaFunction::Atan,
        ArithmaFunction::Atan2 => ArithmaFunction::Atan2,
        ArithmaFunction::Sinh => ArithmaFunction::Sinh,
        ArithmaFunction::Cosh => ArithmaFunction::Cosh,
        ArithmaFunction::Tanh => ArithmaFunction::Tanh,
        ArithmaFunction::Asinh => ArithmaFunction::Asinh,
        ArithmaFunction::Acosh => ArithmaFunction::Acosh,
        ArithmaFunction::Atanh => ArithmaFunction::Atanh,
        ArithmaFunction::Exp => ArithmaFunction::Exp,
        ArithmaFunction::Ln => ArithmaFunction::Ln,
        ArithmaFunction::Log => ArithmaFunction::Log,
        ArithmaFunction::Log10 => ArithmaFunction::Log10,
        ArithmaFunction::Log2 => ArithmaFunction::Log2,
        ArithmaFunction::Sqrt => ArithmaFunction::Sqrt,
        ArithmaFunction::Cbrt => ArithmaFunction::Cbrt,
        ArithmaFunction::Gamma => ArithmaFunction::Gamma,
        ArithmaFunction::Beta => ArithmaFunction::Beta,
        ArithmaFunction::Erf => ArithmaFunction::Erf,
        ArithmaFunction::Factorial => ArithmaFunction::Factorial,
        ArithmaFunction::Abs => ArithmaFunction::Abs,
        ArithmaFunction::Sign => ArithmaFunction::Sign,
        ArithmaFunction::Floor => ArithmaFunction::Floor,
        ArithmaFunction::Ceil => ArithmaFunction::Ceil,
        ArithmaFunction::Round => ArithmaFunction::Round,
        ArithmaFunction::Real => ArithmaFunction::Real,
        ArithmaFunction::Imag => ArithmaFunction::Imag,
        ArithmaFunction::Conjugate => ArithmaFunction::Conjugate,
        ArithmaFunction::Arg => ArithmaFunction::Arg,
        ArithmaFunction::Median => ArithmaFunction::Median,
        ArithmaFunction::Mode => ArithmaFunction::Mode,
        ArithmaFunction::Quartiles => ArithmaFunction::Quartiles,
        ArithmaFunction::InterquartileRange => ArithmaFunction::InterquartileRange,
        ArithmaFunction::Mean => ArithmaFunction::Mean,
        ArithmaFunction::Sum => ArithmaFunction::Sum,
        ArithmaFunction::Variance => ArithmaFunction::Variance,
        ArithmaFunction::StandardDeviation => ArithmaFunction::StandardDeviation,
        ArithmaFunction::Min => ArithmaFunction::Min,
        ArithmaFunction::Max => ArithmaFunction::Max,
        ArithmaFunction::Range => ArithmaFunction::Range,
        ArithmaFunction::CorrelationCoefficient => ArithmaFunction::CorrelationCoefficient,
        ArithmaFunction::LinearRegression => ArithmaFunction::LinearRegression,
        ArithmaFunction::StandardScore => ArithmaFunction::StandardScore,
        ArithmaFunction::Area => ArithmaFunction::Area,
        ArithmaFunction::Volume => ArithmaFunction::Volume,
        ArithmaFunction::Perimeter => ArithmaFunction::Perimeter,
        ArithmaFunction::SurfaceArea => ArithmaFunction::SurfaceArea,
        ArithmaFunction::LogBase(n) => ArithmaFunction::LogBase(copy_integer(n)),
        ArithmaFunction::Pow(n) => ArithmaFunction::Pow(copy_integer(n)),
        ArithmaFunction::Root(k) => ArithmaFunction::Root(*k),
        ArithmaFunction::Derivative { var } => ArithmaFunction::Derivative { var: var.clone() },
        ArithmaFunction::PartialDerivative { var } => ArithmaFunction::PartialDerivative { var: var.clone() },
        ArithmaFunction::Integral { var } => ArithmaFunction::Integral { var: var.clone() },
        ArithmaFunction::DefiniteIntegral { var, lower_bound, upper_bound } => ArithmaFunction::DefiniteIntegral {
            var: var.clone(),
            lower_bound: Box::new(copy_expr(lower_bound)),
            upper_bound: Box::new(copy_expr(upper_bound)),
        },
        ArithmaFunction::FindRoots { var, lower_bound, upper_bound } => ArithmaFunction::FindRoots {
            var: var.clone(),
            lower_bound: Box::new(copy_expr(lower_bound)),
            upper_bound: Box::new(copy_expr(upper_bound)),
        },
        ArithmaFunction::FindCriticalPoints { var, lower_bound, upper_bound } => ArithmaFunction::FindCriticalPoints {
            var: var.clone(),
            lower_bound: Box::new(copy_expr(lower_bound)),
            upper_bound: Box::new(copy_expr(upper_bound)),
        },
        ArithmaFunction::Summation { var, lower_bound, upper_bound } => ArithmaFunction::Summation {
            var: var.clone(),
            lower_bound: Box::new(copy_expr(lower_bound)),
            upper_bound: Box::new(copy_expr(upper_bound)),
        },
        ArithmaFunction::Product { var, lower_bound, upper_bound } => ArithmaFunction::Product {
            var: var.clone(),
            lower_bound: Box::new(copy_expr(lower_bound)),
            upper_bound: Box::new(copy_expr(upper_bound)),
        },
        ArithmaFunction::LaplacianOperator { vars } => ArithmaFunction::LaplacianOperator { vars: copy_texts(vars) },
        ArithmaFunction::GradientOperator { vars } => ArithmaFunction::GradientOperator { vars: copy_texts(vars) },
        ArithmaFunction::DivergenceOperator { vars } => ArithmaFunction::DivergenceOperator { vars: copy_texts(vars) },
        ArithmaFunction::CurlOperator { vars } => ArithmaFunction::CurlOperator { vars: copy_texts(vars) },
        ArithmaFunction::NewtonRaphson { var, initial_guess } => ArithmaFunction::NewtonRaphson {
            var: var.clone(),
            initial_guess: Box::new(copy_expr(initial_guess)),
        },
        ArithmaFunction::Optimize { var, lower_bound, upper_bound, maximize } => ArithmaFunction::Optimize {
            var: var.clone(),
            lower_bound: Box::new(copy_expr(lower_bound)),
            upper_bound: Box::new(copy_expr(upper_bound)),
            maximize: *maximize,
        },
        ArithmaFunction::Limit { var, approach, direction } => ArithmaFunction::Limit {
            var: var.clone(),
            approach: Box::new(copy_expr(approach)),
            direction: *direction,
        },
        ArithmaFunction::Percentile { percentile } => ArithmaFunction::Percentile {
            percentile: copy_integer(percentile),
        },
    }
}
} // verus!
