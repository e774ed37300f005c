//! Stable numeric identifiers for canonical angles and standard identities,
//! shared with the equation-ID texture writer.

pub mod math_hash;
pub mod trig_hash;
