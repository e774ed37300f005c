//! Simplification entry points and the rule classification used by the cost
//! model.

use vstd::prelude::*;

use crate::expression::SimplificationConfig;

verus! {

/// Simplification rule classification, used by the cost model and by the
/// router to decide between the built-in simplifier and an external backend.
#[derive(Debug, Clone, Copy, PartialEq, Eq, Hash, Structural)]
pub enum ArithmosSimplificationMethod {
    /// Compile-time / always-on identities (idempotents, units, zeros).
    Compiletime,
    /// Iterative pattern-matched rewrites.
    Iterative,
    /// Costed search over candidate rewrites; the most expensive.
    Costed,
}

/// Apply the configured simplification rules to `expr`.
///
/// No rule is wired into this entry point yet: the expression is left as it
/// is and `false` ("nothing changed") is reported.
pub fn run<E>(expr: &mut E, config: &SimplificationConfig) -> (changed: bool)
    ensures
        !changed,
        *final(expr) == *old(expr),
{
    false
}

/// Apply the always-on compile-time identities. Returns `true` if anything
/// changed; no identity is wired in yet, so nothing changes.
pub fn run_compile_time<E>(expr: &mut E) -> (changed: bool)
    ensures
        !changed,
        *final(expr) == *old(expr),
{
    false
}

} // verus!
