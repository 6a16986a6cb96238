//! The surface every collector has to provide.

use vstd::prelude::*;

verus! {

/// Why a collection was triggered.
///
/// Recorded on every cycle, because a heap that is collecting for the wrong reason is the first
/// symptom of a tuning problem and it is invisible without this.
#[derive(Clone, Copy, Debug, PartialEq, Eq, Structural)]
pub enum GcReason {
    /// The nursery filled up. The common case, and it should stay the common case.
    AllocationFailed,
    /// The heap crossed the size the policy allows before a major collection.
    HeapLimit,
    /// An embedder or a test asked for it explicitly.
    Explicit,
    /// The process is idle and the collector took the opportunity.
    Idle,
}

/// What one collection cycle cost.
#[derive(Clone, Copy, Debug)]
pub struct GcStats {
    /// Bytes live after the cycle finished.
    pub live_bytes: usize,
    /// Bytes the collector has reserved from the operating system.
    pub reserved_bytes: usize,
    /// Total time the mutator was stopped, in microseconds.
    pub pause_micros: u64,
    /// Why the cycle happened.
    pub reason: GcReason,
}

/// The surface every collector binding has to provide.
///
/// Kept small on purpose. Anything that is not in this trait is something the rest of the runtime is
/// not allowed to assume about the collector.
pub trait Collector {
    /// What has to hold of the collector for it to be asked anything.
    spec fn ready(&self) -> bool;

    /// Allocate `bytes` of object storage, returning its address, or `None` if a collection is needed
    /// first.
    fn try_allocate(&mut self, bytes: usize) -> (address: Option<u64>)
        requires
            old(self).ready(),
        ensures
            final(self).ready(),
    ;

    /// Run a collection cycle and report what it cost.
    fn collect(&mut self, reason: GcReason) -> (stats: GcStats)
        requires
            old(self).ready(),
        ensures
            final(self).ready(),
            stats.reason == reason,
    ;

    /// Bytes currently reserved from the operating system.
    ///
    /// Deliberately the reserved figure and not the live figure, because a container's memory limit
    /// counts pages and not liveness.
    fn reserved_bytes(&self) -> (bytes: usize)
        requires
            self.ready(),
    ;

    /// A human readable name for the collector.
    fn name(&self) -> (name: &'static str);
}

} // verus!
