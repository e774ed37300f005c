//! The integration seam for backends other than the built-in one: they
//! register themselves in the [`registry`] and the router asks them in turn.

pub mod registry;
