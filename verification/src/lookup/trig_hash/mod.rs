//! Canonical-angle slots and their names.

use vstd::prelude::*;

pub mod angle_ids;

verus! {

/// The readable name of each registered angle slot.
pub open spec fn angle_label(id: u32) -> Option<Seq<char>> {
    if id == angle_ids::ZERO {
        Some("0"@)
    } else if id == angle_ids::PI_OVER_6 {
        Some("π/6"@)
    } else if id == angle_ids::PI_OVER_4 {
        Some("π/4"@)
    } else if id == angle_ids::PI_OVER_3 {
        Some("π/3"@)
    } else if id == angle_ids::PI_OVER_2 {
        Some("π/2"@)
    } else if id == angle_ids::TWO_PI_OVER_3 {
        Some("2π/3"@)
    } else if id == angle_ids::THREE_PI_OVER_4 {
        Some("3π/4"@)
    } else if id == angle_ids::FIVE_PI_OVER_6 {
        Some("5π/6"@)
    } else if id == angle_ids::PI {
        Some("π"@)
    } else if id == angle_ids::THREE_PI_OVER_2 {
        Some("3π/2"@)
    } else if id == angle_ids::TWO_PI {
        Some("2π"@)
    } else {
        None
    }
}

/// The human-readable name of an angle slot, or `None` if the slot is not
/// registered.
pub fn angle_name(id: u32) -> (r: Option<&'static str>)
    ensures
        match r {
            Some(name) => angle_label(id) == Some(name@),
            None => angle_label(id) is None,
        },
{
    if id == angle_ids::ZERO {
        Some("0")
    } else if id == angle_ids::PI_OVER_6 {
        Some("π/6")
    } else if id == angle_ids::PI_OVER_4 {
        Some("π/4")
    } else if id == angle_ids::PI_OVER_3 {
        Some("π/3")
    } else if id == angle_ids::PI_OVER_2 {
        Some("π/2")
    } else if id == angle_ids::TWO_PI_OVER_3 {
        Some("2π/3")
    } else if id == angle_ids::THREE_PI_OVER_4 {
        Some("3π/4")
    } else if id == angle_ids::FIVE_PI_OVER_6 {
        Some("5π/6")
    } else if id == angle_ids::PI {
        Some("π")
    } else if id == angle_ids::THREE_PI_OVER_2 {
        Some("3π/2")
    } else if id == angle_ids::TWO_PI {
        Some("2π")
    } else {
        None
    }
}

} // verus!
