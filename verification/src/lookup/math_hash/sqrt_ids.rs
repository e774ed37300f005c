//! Square-root simplifications (7000 series).

use vstd::prelude::*;

verus! {

/// `sqrt(0) = 0`
pub const SQRT_ZERO: u32 = 7000;
/// `sqrt(1) = 1`
pub const SQRT_ONE: u32 = 7001;
/// `sqrt(4) = 2`
pub const SQRT_FOUR: u32 = 7002;
/// `sqrt(9) = 3`
pub const SQRT_NINE: u32 = 7003;
/// `sqrt(x^2) = |x|`
pub const SQRT_X_SQUARED: u32 = 7004;

} // verus!
