//! Choice of numerical root-finding method.

use vstd::prelude::*;

verus! {

/// Choice of numerical method.
#[derive(Debug, Clone, Copy, PartialEq, Eq, Hash, Structural)]
pub enum ArithmaNumericalMethod {
    Bisection,
    NewtonRaphson,
    Secant,
    Brent,
}

} // verus!

pub use self::ArithmaNumericalMethod as ArithmosNumericalMethod;
