//! The outcome a handler reports, the shutdown disciplines, and the error a
//! background task resolves to.

use vstd::prelude::*;

verus! {

/// A handler's declared outcome: the state the machine moves to next,
/// optionally carrying an error message when the handler both transitions and
/// reports a recoverable failure (for instance moving to a failed state while
/// preserving the cause).
#[derive(Debug)]
pub enum Transition<T> {
    /// Transition to a new state.
    To(T),
    /// Transition to a new state with associated error data.
    ToWithData(T, String),
}

impl<T> Transition<T> {
    /// The target state of this transition.
    pub open spec fn spec_state(self) -> T {
        match self {
            Transition::To(s) => s,
            Transition::ToWithData(s, _) => s,
        }
    }

    /// Whether this transition carries error data.
    pub open spec fn spec_has_error(self) -> bool {
        self is ToWithData
    }

    /// The error data this transition carries, if any.
    pub open spec fn spec_error(self) -> Option<String> {
        match self {
            Transition::To(_) => None,
            Transition::ToWithData(_, e) => Some(e),
        }
    }

    /// Create a simple transition to a new state.
    #[must_use]
    pub fn to(state: T) -> (t: Self)
        ensures
            t == Transition::To(state),
    {
        Transition::To(state)
    }

    /// Create a transition to a new state with associated error data.
    pub fn to_with_data(state: T, error: String) -> (t: Self)
        ensures
            t == Transition::ToWithData(state, error),
    {
        Transition::ToWithData(state, error)
    }

    /// Extract the target state, discarding any error data.
    #[must_use]
    pub fn into_state(self) -> (s: T)
        ensures
            s == self.spec_state(),
    {
        match self {
            Transition::To(state) => state,
            Transition::ToWithData(state, _) => state,
        }
    }

    /// Split the transition into its target state and its error data.
    pub fn into_parts(self) -> (r: (T, Option<String>))
        ensures
            r.0 == self.spec_state(),
            r.1 == self.spec_error(),
    {
        match self {
            Transition::To(state) => (state, None),
            Transition::ToWithData(state, e) => (state, Some(e)),
        }
    }

    /// Check if this transition contains error data.
    pub fn has_error(&self) -> (b: bool)
        ensures
            b == self.spec_has_error(),
    {
        match self {
            Transition::To(_) => false,
            Transition::ToWithData(_, _) => true,
        }
    }
}

/// Shutdown mode for graceful or immediate termination.
#[derive(Debug, Clone, Copy, PartialEq, Eq, Structural)]
pub enum ShutdownMode {
    /// Graceful shutdown: process remaining events in the queue before terminating.
    Graceful,
    /// Immediate shutdown: terminate immediately without processing remaining events.
    Immediate,
}

/// Error a background task resolves to when it does not return a context.
///
/// A logical error reported by a handler and a failure of the task itself
/// (a panic, or cancellation by the scheduler) are distinct outcomes and are
/// never conflated; the latter carries the host scheduler's description.
#[derive(Debug)]
pub enum TaskError<E> {
    /// A handler reported a logical error.
    Fsm(E),
    /// The background task failed to run to completion.
    Join(String),
}

} // verus!
