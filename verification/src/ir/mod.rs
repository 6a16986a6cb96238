//! Bytecode and function blueprints.
//!
//! `op` is the instruction set, `constant` is the per function pool that instructions name by
//! index, `position` is which byte of the source each instruction came from, `blueprint` bolts those
//! together into the thing a closure is stamped out of, and `listing` is what a printed instruction
//! gives away.

pub mod blueprint;
pub mod constant;
pub mod instruction;
pub mod listing;
pub mod op;
pub mod position;

pub use crate::ir::blueprint::{BlueprintError, FunctionBlueprint, Handler};
pub use crate::ir::constant::{ConstIndex, Constant, ConstantPool};
pub use crate::ir::op::{BlueprintIndex, CacheIndex, CodeOffset, Op, Register};
pub use crate::ir::position::SourcePositions;

use vstd::prelude::*;

verus! {

/// The version of the bytecode format itself, independent of the crate version.
///
/// Every cache file and every snapshot carries it. A mismatch means the artifact is discarded and
/// regenerated, never loaded optimistically.
pub const BYTECODE_FORMAT_VERSION: u32 = 2;

} // verus!
