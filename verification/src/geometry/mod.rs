//! Geometry: the intersection routines' home.

pub mod intersection;

pub use intersection::ArithmaIntersection;
