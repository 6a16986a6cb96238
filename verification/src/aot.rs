//! The ahead of time emitter: a JavaScript or TypeScript program in, a Rust crate out.
//!
//! The emitted Rust contains the operations the optimizing tier would have emitted, against the same
//! object model, so the semantics are the real ones and not a typed subset of them.

use vstd::prelude::*;

verus! {

/// How much the compiler knows about one operation before the program runs.
///
/// TypeScript annotations are evidence, not proof. An annotation moves an operation from `Dynamic` to
/// `Speculated` and never to `Proven`.
#[derive(Clone, Copy, Debug, PartialEq, Eq, Structural)]
pub enum Certainty {
    /// The type follows from the program itself and needs no guard.
    Proven,
    /// The type is likely, and the emitted code guards and falls back if it is wrong.
    Speculated,
    /// Nothing useful is known. The emitted code does the full dynamic operation.
    Dynamic,
}

/// Why an ahead of time compiled binary still has to embed the interpreter.
///
/// Without a deoptimization target, ahead of time compilation is either conservative and slow or fast
/// and wrong. Embedding the interpreter is what lets it be fast and correct.
#[must_use]
pub fn embeds_interpreter() -> (embeds: bool)
    ensures
        embeds,
{
    true
}

} // verus!
