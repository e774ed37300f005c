//! Classification of critical points.

use vstd::prelude::*;

verus! {

/// Classification of a critical point: the textbook maximum, minimum,
/// saddle and inflection, and a slot for points where the derivative tests
/// say nothing.
#[derive(Debug, Clone, Copy, PartialEq, Eq, Hash, Structural)]
pub enum ArithmaCriticalPointKind {
    /// `f'(x*) = 0` and `f''(x*) < 0`, or a higher-order test confirms a
    /// maximum.
    Maximum,
    /// `f'(x*) = 0` and `f''(x*) > 0`.
    Minimum,
    /// `f'(x*) = 0` and the function passes through without a local extremum.
    Saddle,
    /// `f''(x*) = 0` and `f'''(x*) != 0`: a change of concavity.
    Inflection,
    /// The derivatives vanish past the order that was evaluated.
    Inconclusive,
}

} // verus!

pub use self::ArithmaCriticalPointKind as ArithmosCriticalPointKind;
