//! Derivatives (4000 series).

use vstd::prelude::*;

verus! {

/// `d/dx[x] = 1`
pub const DERIVATIVE_X: u32 = 4000;
/// `d/dx[x^2] = 2x`
pub const DERIVATIVE_X_SQUARED: u32 = 4001;
/// `d/dx[sin(x)] = cos(x)`
pub const DERIVATIVE_SIN_X: u32 = 4002;
/// `d/dx[cos(x)] = -sin(x)`
pub const DERIVATIVE_COS_X: u32 = 4003;
/// `d/dx[tan(x)] = sec^2(x)`
pub const DERIVATIVE_TAN_X: u32 = 4004;
/// `d/dx[e^x] = e^x`
pub const DERIVATIVE_E_POW_X: u32 = 4005;
/// `d/dx[ln(x)] = 1/x`
pub const DERIVATIVE_LN_X: u32 = 4006;
/// `d/dx[c] = 0`
pub const DERIVATIVE_CONSTANT: u32 = 4007;

} // verus!
