//! Standard integrals (3000 series).

use vstd::prelude::*;

verus! {

/// `int x dx = x^2/2`
pub const INTEGRAL_X: u32 = 3000;
/// `int x^2 dx = x^3/3`
pub const INTEGRAL_X_SQUARED: u32 = 3001;
/// `int 1/x dx = ln(x)`
pub const INTEGRAL_ONE_OVER_X: u32 = 3002;
/// `int e^x dx = e^x`
pub const INTEGRAL_E_POW_X: u32 = 3003;
/// `int sin(x) dx = -cos(x)`
pub const INTEGRAL_SIN_X: u32 = 3004;
/// `int cos(x) dx = sin(x)`
pub const INTEGRAL_COS_X: u32 = 3005;
/// `int tan(x) dx = -ln(|cos(x)|)`
pub const INTEGRAL_TAN_X: u32 = 3006;
/// `int sec^2(x) dx = tan(x)`
pub const INTEGRAL_SEC_SQUARED_X: u32 = 3007;
/// `int 1 dx = x`
pub const INTEGRAL_ONE: u32 = 3008;
/// `int sqrt(x) dx = (2/3) x^(3/2)`
pub const INTEGRAL_SQRT_X: u32 = 3009;

} // verus!
