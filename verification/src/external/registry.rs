//! Pluggable external-function registry.
//!
//! Backends register here at start-up, in order; the router walks them in
//! registration order. Nothing else keeps a symbol table of backends.

use vstd::prelude::*;

verus! {

/// Failures that can arise when invoking a registered external function.
#[derive(Debug)]
pub enum ArithmosExternalFunctionError {
    /// The backend is registered by name but not currently loaded.
    BackendUnavailable(String),
    /// The backend is loaded but does not implement the requested operator.
    OperatorUnsupported { backend: String, op: String },
    /// Argument count mismatch.
    ArityMismatch { op: String, expected: usize, got: usize },
    /// Free-form runtime failure inside the backend.
    EvaluationFailed(String),
}

/// Implemented by every external math backend, over the expression type
/// that it evaluates.
pub trait ArithmosBackend<Expr>: Send + Sync {
    /// Stable, unique backend identifier, by which routing decisions are
    /// remembered.
    fn name(&self) -> &'static str;

    /// Try to evaluate an expression with this backend.
    ///
    /// `BackendUnavailable` or `OperatorUnsupported` tell the router to go on
    /// to the next backend; `EvaluationFailed` ends the request.
    fn try_evaluate(&self, expr: &Expr) -> Result<Expr, ArithmosExternalFunctionError>;
}

/// The registry of backends, in registration order.
pub struct ArithmosExternalFunctionRegistry<B> {
    backends: Vec<B>,
}

impl<B> View for ArithmosExternalFunctionRegistry<B> {
    type V = Seq<B>;

    /// The registered backends, oldest first.
    closed spec fn view(&self) -> Seq<B> {
        self.backends@
    }
}

impl<B> ArithmosExternalFunctionRegistry<B> {
    /// New empty registry.
    pub fn new() -> (r: Self)
        ensures
            r@ == Seq::<B>::empty(),
    {
        ArithmosExternalFunctionRegistry { backends: Vec::new() }
    }

    /// Register a backend after those already registered.
    pub fn register(&mut self, backend: B)
        ensures
            final(self)@ == old(self)@.push(backend),
    {
        self.backends.push(backend);
    }

    /// The registered backends in registration order.
    pub fn backends(&self) -> (all: &[B])
        ensures
            all@ == self@,
    {
        self.backends.as_slice()
    }
}

impl<B> Default for ArithmosExternalFunctionRegistry<B> {
    fn default() -> (r: Self)
        ensures
            r@ == Seq::<B>::empty(),
    {
        Self::new()
    }
}

/// Registering never disturbs what was registered before: the earlier
/// backends keep their places, and the new one comes last.
pub proof fn law_registration_order_is_kept<B>(before: Seq<B>, backend: B, i: int)
    requires
        0 <= i < before.len(),
    ensures
        before.push(backend)[i] == before[i],
        before.push(backend).last() == backend,
        before.push(backend).len() == before.len() + 1,
{
}

} // verus!
