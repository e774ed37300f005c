//! # Calculus
//!
//! Symbolic differentiation of expression trees: the rules ([`rules`]), the
//! stack-based differentiator ([`differentiation_iterative`]) and the entry
//! points built on it ([`differentiation`]).

pub mod differentiation;
pub mod differentiation_iterative;
pub mod laws;
pub mod rules;

pub use self::differentiation::differentiate;
pub use self::differentiation_iterative::differentiate_iterative;
