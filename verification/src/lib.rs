//! # arithma_core
//!
//! The foundation of a symbolic mathematics engine: exact unlimited-precision
//! integers and lossless machine arithmetic, the canonical ordering of
//! literals, the fragments of the code emitter, the lexer and grammar of
//! written expressions, the symbol table of named constants, matrices and
//! permutations, the fallback and external-backend plumbing, and the stable
//! identifier tables.

use vstd::prelude::*;

pub mod arithmetic;
pub mod calculus;
pub mod constants;
pub mod equation_solver;
pub mod expression;
pub mod external;
pub mod fallback;
pub mod fourier;
pub mod function;
pub mod geometry;
pub mod integer;
pub mod lookup;
pub mod matrix;
pub mod numerical;
pub mod parse;

pub use crate::constants::ArithmosConstants;
pub use crate::external::registry::{
    ArithmosExternalFunctionError, ArithmosExternalFunctionRegistry,
};
pub use crate::integer::ArithmosInteger;

verus! {

/// Returns the library name.
pub fn hello() -> (name: &'static str)
    ensures
        name@ == "arithma"@,
{
    "arithma"
}

/// Returns the package version.
pub fn version() -> (v: &'static str)
    ensures
        v@ == "0.1.0"@,
{
    "0.1.0"
}

/// Conversion between a downstream library's expression-bearing type and the
/// expression type `Expr` that this library works over.
///
/// Downstream libraries implement it on their own types, so that the engine
/// has one substrate over which every library can be inspected, simplified,
/// differentiated or compared. It holds conversions and an error type only,
/// so implementing it takes on nothing else of this library.
pub trait ArithmosInterop<Expr> {
    /// Error of a failed conversion.
    type Error;

    /// Convert into the expression type, keeping symbolic structure where
    /// the source has it.
    fn to_arithma(&self) -> Result<Expr, Self::Error>;

    /// Convert back from the expression type, for results that flow back
    /// into the originating library.
    fn from_arithma(expr: &Expr) -> Result<Self, Self::Error> where Self: Sized;
}

} // verus!
