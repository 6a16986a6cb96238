//! The Node.js compatible layer.

use vstd::prelude::*;

verus! {

/// The Node.js line tracked for compatibility.
///
/// The active LTS, not the current release, because that is what production runs.
pub const TARGET_NODE_LTS: &'static str = "24.x";

/// The Node-API version this build implements.
///
/// Node-API stopped being strictly additive at version 9, so 8 is the version with the widest addon
/// compatibility.
pub const NODE_API_VERSION: u32 = 8;

/// How completely one `node:` module is implemented.
///
/// A module reported as `Partial` names what is missing rather than hiding behind a percentage.
#[derive(Clone, Copy, Debug, PartialEq, Eq, Structural)]
pub enum Support {
    /// Implemented, and passing the relevant part of Node's own test suite.
    Full,
    /// Usable, with named gaps.
    Partial,
    /// Present so that `require` does not throw, but every function throws on use. Never a silent no
    /// op, because a silent no op is worse than an absence.
    Stub,
    /// Not implemented.
    Missing,
}

/// Whether a build can load native `.node` addons, given whether the `addons` feature is in it.
///
/// Off by default. Loading arbitrary native code into the process is a security decision the embedder
/// makes.
#[must_use]
pub fn addons_enabled(addons: bool) -> (enabled: bool)
    ensures
        enabled == addons,
{
    addons
}

} // verus!
