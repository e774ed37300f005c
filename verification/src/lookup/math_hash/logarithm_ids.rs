//! Logarithmic simplifications. These share the 5000 range with the limit
//! slots, values that the flat identifier namespace fixes: match
//! on the constant names, not the numbers.

use vstd::prelude::*;

verus! {

/// `ln(e) = 1`
pub const LN_E: u32 = 5000;
/// `ln(1) = 0`
pub const LN_ONE: u32 = 5001;
/// `log_b(b) = 1`
pub const LOG_SAME_BASE: u32 = 5002;

} // verus!
