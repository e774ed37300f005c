//! Standard limits (5000 series).

use vstd::prelude::*;

verus! {

/// `lim[x->0] sin(x)/x = 1`
pub const LIMIT_SIN_X_OVER_X: u32 = 5000;
/// `lim[x->0] tan(x)/x = 1`
pub const LIMIT_TAN_X_OVER_X: u32 = 5001;
/// `lim[x->0] (e^x-1)/x = 1`
pub const LIMIT_EXP_MINUS_ONE_OVER_X: u32 = 5002;
/// `lim[x->0] ln(1+x)/x = 1`
pub const LIMIT_LN_ONE_PLUS_X_OVER_X: u32 = 5003;
/// `lim[x->0] (1-cos(x))/x^2 = 1/2`
pub const LIMIT_ONE_MINUS_COS_X_OVER_X_SQ: u32 = 5004;
/// `lim[n->inf] (1+1/n)^n = e`
pub const LIMIT_COMPOUND_INTEREST: u32 = 5005;

} // verus!
