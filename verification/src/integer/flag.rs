//! Special-value flag bits for `ArithmaInternalInteger`. Public and stable so
//! downstream backends can route on flag inspection without depending on the
//! digit layout.

use vstd::prelude::*;

verus! {

/// The value is negative.
pub const NEGATIVE: u16 = 0x0001;

/// The value is an infinity.
pub const INFINITY: u16 = 0x0004;

/// The value is not a number.
pub const NAN: u16 = 0x0008;

/// The value is imaginary.
pub const IMAGINARY: u16 = 0x0010;

/// The value is infinitesimal.
pub const INFINITESIMAL: u16 = 0x0020;

/// The value is an exact rational rather than an integer.
pub const RATIONAL: u16 = 0x0080;

} // verus!
