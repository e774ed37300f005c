//! Exponential simplifications. These share the 6000 range with the
//! summation slots: the identifiers form one flat namespace, and these
//! values are fixed by it.

use vstd::prelude::*;

verus! {

/// `e^0 = 1`
pub const E_POW_ZERO: u32 = 6000;
/// `e^1 = e`
pub const E_POW_ONE: u32 = 6001;
/// `e^(ln(x)) = x`
pub const E_POW_LN_X: u32 = 6002;

} // verus!
