//! Fallback dispatch.
//!
//! When a primary backend cannot evaluate an expression, the fallback chain
//! decides what happens next: drop to a numeric evaluation, return the
//! expression unchanged, or surface an error. This module holds the strategy
//! enum, the contract every function with a pure-Rust fallback implements,
//! and the per-function call counters.

use vstd::prelude::*;

verus! {

/// Strategy used when a backend fails or refuses an expression.
#[derive(Debug, Clone, Copy, PartialEq, Eq, Structural)]
pub enum ArithmosFallbackStrategy {
    /// Drop to a numeric evaluation if every leaf has a numeric value.
    Numeric,
    /// Return the expression unchanged.
    Symbolic,
    /// Surface the error to the caller.
    Error,
}

impl Default for ArithmosFallbackStrategy {
    fn default() -> (s: Self)
        ensures
            s == ArithmosFallbackStrategy::Symbolic,
    {
        ArithmosFallbackStrategy::Symbolic
    }
}

/// The next strategy to try for `expr`.
///
/// The chain is not wired up: every strategy is its own successor, whatever
/// the expression.
pub fn try_fallback<E>(expr: &E, strategy: ArithmosFallbackStrategy) -> (next:
    ArithmosFallbackStrategy)
    ensures
        next == strategy,
{
    strategy
}

/// A function that can have external implementations beside a pure-Rust one.
///
/// Generic over the expression type, so that any carrier of expressions can
/// implement it.
pub trait ArithmosFallbackFunction<Expr> {
    /// Stable function identifier (for example `"sin"` or `"my_lib::foo"`).
    fn function_id(&self) -> &str;

    /// Pure-Rust implementation: always available, the floor of the chain.
    fn rust_implementation(&self, args: &[Expr]) -> Result<Expr, String>;

    /// Name under which an external implementation is looked up, if any.
    /// Unless overridden, there is none.
    fn external_function_name(&self) -> (name: Option<&str>)
        default_ensures
            name is None,
    {
        None
    }

    /// Whether an external implementation is preferred when both paths are
    /// available. Unless overridden, it is.
    fn prefer_external(&self) -> (prefer: bool)
        default_ensures
            prefer,
    {
        true
    }
}

/// One more than `n`, held at `u64::MAX`: what `saturating_add(1)` gives.
pub open spec fn bumped(n: u64) -> u64 {
    if n == u64::MAX {
        n
    } else {
        (n + 1) as u64
    }
}

/// Call counters of one registered function.
#[derive(Debug, Clone, Copy, PartialEq, Eq, Structural)]
pub struct ArithmosFallbackStats {
    /// External-backend invocations attempted.
    pub external_calls: u64,
    /// External invocations that returned a value.
    pub external_successes: u64,
    /// Times the Rust fallback ran, because the external path failed or was
    /// not available.
    pub fallback_calls: u64,
    /// All evaluations, on either path.
    pub total_calls: u64,
}

impl Default for ArithmosFallbackStats {
    fn default() -> (s: Self)
        ensures
            s.is_zero(),
    {
        ArithmosFallbackStats {
            external_calls: 0,
            external_successes: 0,
            fallback_calls: 0,
            total_calls: 0,
        }
    }
}

impl ArithmosFallbackStats {
    /// Every counter is zero.
    pub open spec fn is_zero(self) -> bool {
        &&& self.external_calls == 0
        &&& self.external_successes == 0
        &&& self.fallback_calls == 0
        &&& self.total_calls == 0
    }

    /// The counters nest as their meaning says: successes are external
    /// calls, and external calls and fallback runs are evaluations.
    pub open spec fn consistent(self) -> bool {
        &&& self.external_successes <= self.external_calls
        &&& self.external_calls <= self.total_calls
        &&& self.fallback_calls <= self.total_calls
    }

    /// The counters after a successful external invocation.
    pub open spec fn after_external_success(self) -> Self {
        ArithmosFallbackStats {
            total_calls: bumped(self.total_calls),
            external_calls: bumped(self.external_calls),
            external_successes: bumped(self.external_successes),
            ..self
        }
    }

    /// The counters after a failed external invocation that fell through to
    /// the Rust fallback.
    pub open spec fn after_external_failure(self) -> Self {
        ArithmosFallbackStats {
            total_calls: bumped(self.total_calls),
            external_calls: bumped(self.external_calls),
            fallback_calls: bumped(self.fallback_calls),
            ..self
        }
    }

    /// The counters after a Rust-fallback-only invocation.
    pub open spec fn after_fallback_only(self) -> Self {
        ArithmosFallbackStats {
            total_calls: bumped(self.total_calls),
            fallback_calls: bumped(self.fallback_calls),
            ..self
        }
    }

    /// Record a successful external invocation.
    pub fn record_external_success(&mut self)
        ensures
            *final(self) == old(self).after_external_success(),
    {
        self.total_calls = self.total_calls.saturating_add(1);
        self.external_calls = self.external_calls.saturating_add(1);
        self.external_successes = self.external_successes.saturating_add(1);
    }

    /// Record a failed external invocation that fell through to the Rust
    /// fallback.
    pub fn record_external_failure_then_fallback(&mut self)
        ensures
            *final(self) == old(self).after_external_failure(),
    {
        self.total_calls = self.total_calls.saturating_add(1);
        self.external_calls = self.external_calls.saturating_add(1);
        self.fallback_calls = self.fallback_calls.saturating_add(1);
    }

    /// Record a Rust-fallback-only invocation, with no external attempt.
    pub fn record_fallback_only(&mut self)
        ensures
            *final(self) == old(self).after_fallback_only(),
    {
        self.total_calls = self.total_calls.saturating_add(1);
        self.fallback_calls = self.fallback_calls.saturating_add(1);
    }

    /// Reset all counters.
    pub fn reset(&mut self)
        ensures
            final(self).is_zero(),
    {
        *self = Self::default();
    }
}

/// Every way of recording a call keeps the counters consistent: successes
/// never outnumber external calls, and neither external calls nor fallback
/// runs outnumber evaluations. Counters that have reached `u64::MAX` stay
/// there, and the nesting survives that too.
pub proof fn law_recording_keeps_counters_consistent(s: ArithmosFallbackStats)
    requires
        s.consistent(),
    ensures
        s.after_external_success().consistent(),
        s.after_external_failure().consistent(),
        s.after_fallback_only().consistent(),
{
}

/// Below saturation, every evaluation ends exactly once, in an external
/// success or in a fallback run: a total that is the sum of the two stays so,
/// and each recording adds exactly one evaluation.
pub proof fn law_every_evaluation_ends_once(s: ArithmosFallbackStats)
    requires
        s.total_calls == s.external_successes + s.fallback_calls,
        s.total_calls < u64::MAX,
    ensures
        s.after_external_success().total_calls == s.total_calls + 1,
        s.after_external_failure().total_calls == s.total_calls + 1,
        s.after_fallback_only().total_calls == s.total_calls + 1,
        s.after_external_success().total_calls == s.after_external_success().external_successes
            + s.after_external_success().fallback_calls,
        s.after_external_failure().total_calls == s.after_external_failure().external_successes
            + s.after_external_failure().fallback_calls,
        s.after_fallback_only().total_calls == s.after_fallback_only().external_successes
            + s.after_fallback_only().fallback_calls,
{
}

} // verus!
