//! Intersections of lines, planes and spheres.

use vstd::prelude::*;

verus! {

/// Static collection of intersection routines.
pub struct ArithmaIntersection;

} // verus!

pub use self::ArithmaIntersection as ArithmosIntersection;
