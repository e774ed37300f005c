//! Algebraic-identity slots (2000 series), e.g. `ZERO_PLUS_X` for the
//! rewrite `0 + x -> x`.

use vstd::prelude::*;

verus! {

/// `0 + x = x`
pub const ZERO_PLUS_X: u32 = 2000;
/// `x + 0 = x`
pub const X_PLUS_ZERO: u32 = 2001;
/// `0 * x = 0`
pub const ZERO_TIMES_X: u32 = 2002;
/// `x * 0 = 0`
pub const X_TIMES_ZERO: u32 = 2003;
/// `1 * x = x`
pub const ONE_TIMES_X: u32 = 2004;
/// `x * 1 = x`
pub const X_TIMES_ONE: u32 = 2005;
/// `x - x = 0`
pub const X_MINUS_X: u32 = 2006;
/// `x / x = 1`
pub const X_DIVIDED_BY_X: u32 = 2007;
/// `x / 1 = x`
pub const X_DIVIDED_BY_ONE: u32 = 2008;
/// `0 / x = 0`
pub const ZERO_DIVIDED_BY_X: u32 = 2009;
/// `x^0 = 1`
pub const X_POW_ZERO: u32 = 2010;
/// `x^1 = x`
pub const X_POW_ONE: u32 = 2011;
/// `1^x = 1`
pub const ONE_POW_X: u32 = 2012;

} // verus!
