//! Stable slots for the canonical angles of the unit circle. The slot is a
//! key, not the angle: `pi/4`, `45 deg in rad` and a cached 0.785398... all
//! collapse onto the same slot.

use vstd::prelude::*;

verus! {

/// The angle `0`.
pub const ZERO: u32 = 1000;
/// `pi/6` (30 degrees).
pub const PI_OVER_6: u32 = 1001;
/// `pi/4` (45 degrees).
pub const PI_OVER_4: u32 = 1002;
/// `pi/3` (60 degrees).
pub const PI_OVER_3: u32 = 1003;
/// `pi/2` (90 degrees).
pub const PI_OVER_2: u32 = 1004;
/// `2pi/3` (120 degrees).
pub const TWO_PI_OVER_3: u32 = 1005;
/// `3pi/4` (135 degrees).
pub const THREE_PI_OVER_4: u32 = 1006;
/// `5pi/6` (150 degrees).
pub const FIVE_PI_OVER_6: u32 = 1007;
/// `pi` (180 degrees).
pub const PI: u32 = 1008;
/// `3pi/2` (270 degrees).
pub const THREE_PI_OVER_2: u32 = 1009;
/// `2pi` (360 degrees).
pub const TWO_PI: u32 = 1010;

} // verus!
