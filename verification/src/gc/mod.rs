//! The heap: a cage, an allocator that only moves forward, and what is laid out inside.

pub mod atom;
pub mod block;
pub mod bump;
pub mod cage;
pub mod collector;
pub mod elements;
pub mod function;
pub mod object;
pub mod ordinary;
pub mod record;
pub mod shape;
pub mod string;
pub mod utf16;

pub use crate::gc::atom::{Atom, AtomTable};
pub use crate::gc::bump::{BumpHeap, Census, KindTotals, ObjectKind};
pub use crate::gc::cage::{
    Cage, CageError, CAGE_SIZE, GUARD_SIZE, OBJECT_ALIGN, Reservation, SMI_MAX, SMI_MIN, Slot,
};
pub use crate::gc::collector::{Collector, GcReason, GcStats};
pub use crate::gc::function::{ClosureRef, ContextRef, NativeRef};
pub use crate::gc::object::HeapKind;
pub use crate::gc::ordinary::ObjectRef;
pub use crate::gc::shape::ShapeRef;
pub use crate::gc::string::{
    hash_str, LoneSurrogate, MAX_STRING_LENGTH, STRING_HEADER_SIZE, StringRef,
};
