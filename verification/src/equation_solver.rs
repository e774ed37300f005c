//! Strategy selection for solving equations, and the form of a solution.

use vstd::prelude::*;

use crate::expression::ArithmaExpression;

verus! {

/// Strategy hint for the solver. Implementations may ignore it and use their
/// own heuristics, but it lets callers state a priority.
#[derive(Debug, Clone, Copy, PartialEq, Eq, Hash, Structural)]
pub enum ArithmaSolverStrategy {
    /// Detect automatically; the default.
    Auto,
    /// Force the algebraic, closed-form path.
    Algebraic,
    /// Force the numeric, root-finding path.
    Numeric,
    /// Try algebraic, fall back to numeric.
    Hybrid,
}

impl Default for ArithmaSolverStrategy {
    fn default() -> (s: Self)
        ensures
            s == ArithmaSolverStrategy::Auto,
    {
        ArithmaSolverStrategy::Auto
    }
}

/// One root or solution branch of an equation.
#[derive(Debug, Clone)]
pub struct ArithmaSolution {
    /// Symbolic form of the solution.
    pub expression: ArithmaExpression,
    /// The bits of an optional cached numeric value.
    pub cached_bits: Option<u64>,
    /// Whether this branch is real-valued.
    pub is_real: bool,
}

} // verus!

pub use self::ArithmaSolution as ArithmosSolution;
pub use self::ArithmaSolverStrategy as ArithmosSolverStrategy;
