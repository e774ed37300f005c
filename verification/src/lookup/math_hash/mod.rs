//! Identifier slots for standard identities, integrals, derivatives, limits,
//! sums and special values, and the category each range belongs to.

use vstd::prelude::*;

pub mod algebraic_ids;
pub mod derivative_ids;
pub mod exponential_ids;
pub mod integral_ids;
pub mod limit_ids;
pub mod logarithm_ids;
pub mod sqrt_ids;
pub mod sum_ids;

verus! {

/// Category an identifier belongs to.
#[derive(Debug, Clone, Copy, PartialEq, Eq, Hash, Structural)]
pub enum MathIdKind {
    Algebraic,
    Integral,
    Derivative,
    Limit,
    Sum,
    Logarithm,
    Exponential,
    Sqrt,
}

/// The category owning an identifier's hundred-wide range. The 5000 and 6000
/// ranges are shared (Limit/Logarithm, Sum/Exponential); the first owner,
/// Limit and Sum, is reported for them.
pub open spec fn id_kind(id: u32) -> Option<MathIdKind> {
    if 2000 <= id <= 2099 {
        Some(MathIdKind::Algebraic)
    } else if 3000 <= id <= 3099 {
        Some(MathIdKind::Integral)
    } else if 4000 <= id <= 4099 {
        Some(MathIdKind::Derivative)
    } else if 5000 <= id <= 5099 {
        Some(MathIdKind::Limit)
    } else if 6000 <= id <= 6099 {
        Some(MathIdKind::Sum)
    } else if 7000 <= id <= 7099 {
        Some(MathIdKind::Sqrt)
    } else {
        None
    }
}

/// Derive a category tag from an identifier's range. Callers that need to
/// tell Logarithm from Limit, or Exponential from Sum, should match on the
/// `*_ids` constants directly.
pub fn classify(id: u32) -> (r: Option<MathIdKind>)
    ensures
        r == id_kind(id),
{
    if 2000 <= id && id <= 2099 {
        Some(MathIdKind::Algebraic)
    } else if 3000 <= id && id <= 3099 {
        Some(MathIdKind::Integral)
    } else if 4000 <= id && id <= 4099 {
        Some(MathIdKind::Derivative)
    } else if 5000 <= id && id <= 5099 {
        // Shadows Logarithm at 5000-5002.
        Some(MathIdKind::Limit)
    } else if 6000 <= id && id <= 6099 {
        // Shadows Exponential at 6000-6002.
        Some(MathIdKind::Sum)
    } else if 7000 <= id && id <= 7099 {
        Some(MathIdKind::Sqrt)
    } else {
        None
    }
}

} // verus!
