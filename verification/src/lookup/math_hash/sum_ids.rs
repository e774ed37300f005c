//! Standard summations (6000 series).

use vstd::prelude::*;

verus! {

/// `sum[k=1..n] k = n(n+1)/2`
pub const SUM_LINEAR: u32 = 6000;
/// `sum[k=1..n] k^2 = n(n+1)(2n+1)/6`
pub const SUM_SQUARES: u32 = 6001;
/// `sum[k=1..n] k^3 = (n(n+1)/2)^2`
pub const SUM_CUBES: u32 = 6002;
/// `sum[k=0..n] a r^k = a(1-r^(n+1))/(1-r)`
pub const SUM_GEOMETRIC: u32 = 6003;
/// `sum[k=0..inf] a r^k = a/(1-r)` when `|r|<1`
pub const SUM_INFINITE_GEOMETRIC: u32 = 6004;
/// `sum[k=0..n] 2^k = 2^(n+1) - 1`
pub const SUM_POWERS_OF_TWO: u32 = 6005;
/// `sum[k=1..n] 1/k ~ ln(n) + gamma`
pub const SUM_HARMONIC: u32 = 6006;
/// `sum[k=1..inf] 1/k^2 = pi^2/6` (Basel)
pub const SUM_RECIPROCAL_SQUARES: u32 = 6007;

} // verus!
