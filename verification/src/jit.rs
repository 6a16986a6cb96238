//! Tier 1, the copy and patch baseline, and tier 2, the optimizing tier.

use vstd::prelude::*;

verus! {

/// Which tier a function is currently executing in.
#[derive(Clone, Copy, Debug, PartialEq, Eq, PartialOrd, Ord, Structural)]
pub enum Tier {
    /// The interpreter. Most code in a real process never leaves this tier.
    Interpreter,
    /// The copy and patch baseline. Compilation costs microseconds.
    Baseline,
    /// The optimizing tier, entered only for code that is provably hot.
    Optimizing,
}

/// When a function moves up a tier.
///
/// Deliberately low. A baseline compile is cheap enough that waiting is the more expensive mistake.
pub const BASELINE_TIER_UP_INVOCATIONS: u32 = 8;

/// Why the optimizing tier gave up and fell back to the interpreter.
///
/// Every reason is recorded, because a deoptimization loop is invisible in a profile and obvious in a
/// counter.
#[derive(Clone, Copy, Debug, PartialEq, Eq, Structural)]
pub enum DeoptReason {
    /// A shape guard failed. The overwhelmingly common case.
    ShapeMismatch,
    /// A value was not the type the speculation assumed.
    TypeMismatch,
    /// An integer operation overflowed out of the small integer range.
    Overflow,
    /// A path the optimizer had proven unreachable was reached after all.
    UnreachableReached,
}

/// Whether this build can compile at all, given whether it has stencils to compile with.
///
/// False for an interpreter only build, which is a supported product and not a degraded one: it is
/// what runs on platforms that refuse writable executable memory.
#[must_use]
pub fn jit_available(stencils_available: bool) -> (available: bool)
    ensures
        available == stencils_available,
{
    stencils_available
}

} // verus!
