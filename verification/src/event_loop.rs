//! The event loop.
//!
//! Node's observable phase ordering is the contract.

use vstd::prelude::*;

verus! {

/// One turn of the loop, in the order Node observably runs them.
///
/// A program can tell these apart with `setTimeout`, `setImmediate` and `process.nextTick`, so the
/// ordering is part of the compatibility surface rather than an implementation detail.
#[derive(Clone, Copy, Debug, PartialEq, Eq, PartialOrd, Ord, Structural)]
pub enum Phase {
    /// Expired `setTimeout` and `setInterval` callbacks.
    Timers,
    /// Deferred callbacks from the previous iteration.
    PendingCallbacks,
    /// Internal loop bookkeeping. Not observable, listed so the ordering is complete.
    Idle,
    /// Poll for completed I/O. Where the loop blocks when there is nothing else to do.
    Poll,
    /// `setImmediate` callbacks.
    Check,
    /// `close` events.
    Close,
}

impl Phase {
    /// When in a turn the phase runs.
    pub open spec fn turn(self) -> int {
        match self {
            Phase::Timers => 0,
            Phase::PendingCallbacks => 1,
            Phase::Idle => 2,
            Phase::Poll => 3,
            Phase::Check => 4,
            Phase::Close => 5,
        }
    }

    /// The phases in the order one turn runs them.
    #[must_use]
    pub fn order() -> (order: [Phase; 6])
        ensures
            forall|i: int| 0 <= i < 6 ==> (#[trigger] order@[i]).turn() == i,
            forall|phase: Phase| order@[#[trigger] phase.turn()] == phase,
    {
        [
            Phase::Timers,
            Phase::PendingCallbacks,
            Phase::Idle,
            Phase::Poll,
            Phase::Check,
            Phase::Close,
        ]
    }
}

/// Whether a build has the io_uring backend, given whether the `uring` feature is in it.
///
/// Even when it is compiled in it is not the default. It is an accelerator that an operator opts into
/// on a host they control.
#[must_use]
pub fn uring_compiled_in(uring: bool) -> (compiled_in: bool)
    ensures
        compiled_in == uring,
{
    uring
}

} // verus!
