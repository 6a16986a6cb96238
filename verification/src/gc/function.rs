//! The objects a function call needs: a closure, an environment, and a function written in Rust.
//!
//! # Why a cell is eight bytes and not four
//!
//! Everything else in the cage that refers to something holds a four byte [`Slot`]. A context cell
//! holds eight. A slot is either a thirty one bit integer or a pointer into the cage, and a captured
//! variable can be a double, or `undefined`, or `true`.

use vstd::prelude::*;

use crate::gc::block::{group_words, u32_at, u64_at, Block, Blocks};
use crate::gc::bump::{BumpHeap, ObjectKind};
use crate::gc::cage::{law_a_slot_is_its_text, Cage, Slot};
use crate::gc::object::{
    allocate_slot, lemma_other_blocks_do_not_matter, moved_on, read_u32, read_u64, write_kind,
    write_u32, write_u64, HeapKind,
};
use crate::gc::string::StringRef;
use crate::text::lemma_ends_agree;

verus! {

/// Whether there is a closure at an offset.
pub open spec fn is_closure(blocks: Blocks, offset: int) -> bool {
    &&& blocks.contains_key(offset)
    &&& 0 <= offset <= u32::MAX
    &&& offset % 8 == 0
    &&& blocks[offset].kind == ObjectKind::Closure
    &&& blocks[offset].bytes.len() >= 16
    &&& u32_at(blocks[offset].bytes, 0) == 2
}

/// Which function the closure at `offset` runs.
pub open spec fn function_of(blocks: Blocks, offset: int) -> u32 {
    u32_at(blocks[offset].bytes, 4)
}

/// What the closure at `offset` captured: a context, or zero for nothing.
pub open spec fn captured_by(blocks: Blocks, offset: int) -> Slot {
    Slot(u32_at(blocks[offset].bytes, 8))
}

/// The name of the closure at `offset`: a string, or zero for none.
pub open spec fn name_of(blocks: Blocks, offset: int) -> Slot {
    Slot(u32_at(blocks[offset].bytes, 12))
}

/// Whether there is a function written in Rust at an offset.
pub open spec fn is_native(blocks: Blocks, offset: int) -> bool {
    &&& blocks.contains_key(offset)
    &&& 0 <= offset <= u32::MAX
    &&& offset % 8 == 0
    &&& blocks[offset].kind == ObjectKind::Native
    &&& blocks[offset].bytes.len() >= 8
    &&& u32_at(blocks[offset].bytes, 0) == 6
}

/// Which entry of the function table the native at `offset` calls.
pub open spec fn ordinal_of(blocks: Blocks, offset: int) -> u32 {
    u32_at(blocks[offset].bytes, 4)
}

/// What the context at `offset` is nested inside: a context, or zero for nothing.
pub open spec fn outer_of(blocks: Blocks, offset: int) -> Slot {
    Slot(u32_at(blocks[offset].bytes, 4))
}

/// How many cells the context at `offset` holds.
pub open spec fn cell_count(blocks: Blocks, offset: int) -> u32 {
    u32_at(blocks[offset].bytes, 8)
}

/// Whether there is a context at an offset.
pub open spec fn is_context(blocks: Blocks, offset: int) -> bool {
    &&& blocks.contains_key(offset)
    &&& 0 <= offset <= u32::MAX
    &&& offset % 8 == 0
    &&& blocks[offset].kind == ObjectKind::Context
    &&& blocks[offset].bytes.len() >= 16
    &&& u32_at(blocks[offset].bytes, 0) == 4
    &&& 16 + 8 * cell_count(blocks, offset) <= blocks[offset].bytes.len()
}

/// The cells of the context at `offset`.
pub open spec fn cells_of(blocks: Blocks, offset: int) -> Seq<u64> {
    Seq::new(
        cell_count(blocks, offset) as nat,
        |i: int| u64_at(blocks[offset].bytes, 16 + 8 * i),
    )
}

/// A function value: one blueprint, plus the environment that was live where it was written.
///
/// The blueprint is not in here. Two closures over the same function share one blueprint and differ
/// only in what they captured. What is in here is an index, because the thing being indexed is a
/// compiled unit owned by the caller rather than anything in the cage.
#[derive(Clone, Copy, Debug, PartialEq, Eq, Hash, Structural)]
pub struct ClosureRef(Slot);

impl ClosureRef {
    /// The slot behind the reference.
    pub closed spec fn slotted(self) -> Slot {
        self.0
    }

    /// How the reference is written for a person: what it names and where that is.
    pub open spec fn text(self) -> Seq<char> {
        "fn@"@ + self.slotted().text()
    }

    /// The reference for a person to read, which is enough to tell two of them apart.
    pub fn to_string(&self) -> (out: String)
        ensures
            out@ == self.text(),
    {
        let mut out = String::new();
        out.append("fn@");
        out.append(self.0.to_string().as_str());
        assert(out@ =~= self.text());
        out
    }

    /// A slot names one reference: two with the same slot, pointing at one offset, or written alike are
    /// the same.
    pub proof fn law_a_slot_names_one_reference(self, other: ClosureRef)
        ensures
            self.slotted() == other.slotted() <==> self == other,
            self.slotted().points() && other.slotted().points() && self.slotted().target()
                == other.slotted().target() ==> self == other,
            self.text() == other.text() <==> self == other,
            self.text() == "fn@"@ + self.slotted().text(),
    {
        lemma_ends_agree("fn@"@, self.slotted().text(), other.slotted().text());
        law_a_slot_is_its_text(self.slotted(), other.slotted());
    }

    /// The offset the reference names.
    pub open spec fn at(self) -> int {
        self.slotted().target()
    }

    /// Whether the reference names a closure in a heap.
    pub open spec fn names_in(self, blocks: Blocks) -> bool {
        self.slotted().points() && is_closure(blocks, self.at())
    }

    /// Stamp out a closure over `function`, capturing `captured`.
    ///
    /// Returns `None` if the heap is full.
    #[must_use]
    pub fn new(
        heap: &mut BumpHeap,
        function: u32,
        captured: Option<ContextRef>,
        name: Option<StringRef>,
    ) -> (closure: Option<ClosureRef>)
        requires
            old(heap).wf(),
        ensures
            final(heap).wf(),
            closure is Some <==> old(heap).has_room(16),
            closure is None ==> *final(heap) == *old(heap),
            closure matches Some(made) ==> {
                &&& made.at() == old(heap).next()
                &&& made.names_in(final(heap)@)
                &&& !old(heap)@.contains_key(made.at())
                &&& final(heap)@ == old(heap)@.insert(made.at(), final(heap)@[made.at()])
                &&& moved_on(*old(heap), *final(heap), ObjectKind::Closure, 16)
                &&& function_of(final(heap)@, made.at()) == function
                &&& captured_by(final(heap)@, made.at()) == match captured {
                    Some(context) => context.slotted(),
                    None => Slot(0),
                }
                &&& name_of(final(heap)@, made.at()) == match name {
                    Some(name) => name.slotted(),
                    None => Slot(0),
                }
            },
    {
        broadcast use group_words;

        let ghost before = *heap;
        let slot = match allocate_slot(heap, 16, ObjectKind::Closure) {
            Some(slot) => slot,
            None => {
                return None;
            },
        };
        let offset: u32 = slot.to_bits() - 1;
        let captured_bits: u32 = match captured {
            Some(context) => context.slot().to_bits(),
            None => 0,
        };
        let name_bits: u32 = match name {
            Some(name) => name.slot().to_bits(),
            None => 0,
        };
        write_kind(heap, offset, HeapKind::Closure);
        write_u32(heap, offset, 4, function);
        write_u32(heap, offset, 8, captured_bits);
        write_u32(heap, offset, 12, name_bits);
        let closure = ClosureRef(slot);
        proof {
            let block = Block::fresh(ObjectKind::Closure, 16).put_u32(0, 2).put_u32(
                4,
                function,
            ).put_u32(8, captured_bits).put_u32(12, name_bits);
            assert(heap@ =~= before@.insert(closure.at(), block));
            lemma_other_blocks_do_not_matter(before@, closure.at(), block);
        }
        Some(closure)
    }

    /// Which function in the loaded unit this closure runs.
    #[must_use]
    pub fn function(self, cage: &Cage) -> (function: u32)
        requires
            cage.laid_out(),
            self.names_in(cage@),
        ensures
            function == function_of(cage@, self.at()),
    {
        read_u32(cage, self.offset(), 4)
    }

    /// The environment this closure captured, or `None` if it captured nothing.
    #[must_use]
    pub fn captured(self, cage: &Cage) -> (context: Option<ContextRef>)
        requires
            cage.laid_out(),
            self.names_in(cage@),
        ensures
            context is Some <==> captured_by(cage@, self.at()).points(),
            context matches Some(found) ==> found.slotted() == captured_by(cage@, self.at()),
    {
        ContextRef::from_slot(Slot::from_bits(read_u32(cage, self.offset(), 8)))
    }

    /// The function's name, or `None` for a function that was written without one.
    #[must_use]
    pub fn name(self, cage: &Cage) -> (name: Option<StringRef>)
        requires
            cage.laid_out(),
            self.names_in(cage@),
        ensures
            name is Some <==> name_of(cage@, self.at()).points(),
            name matches Some(found) ==> found.slotted() == name_of(cage@, self.at()),
    {
        StringRef::from_slot(Slot::from_bits(read_u32(cage, self.offset(), 12)))
    }

    /// The slot this closure lives at, for writing into a value or another object.
    #[must_use]
    pub fn slot(self) -> (slot: Slot)
        ensures
            slot == self.slotted(),
    {
        self.0
    }

    /// Read a closure back out of a slot, or `None` if the slot is not a pointer.
    ///
    /// This does not check the kind, because the caller that has a reason to build one of these has
    /// already asked what the slot points at.
    #[must_use]
    pub fn from_slot(slot: Slot) -> (closure: Option<ClosureRef>)
        ensures
            closure is Some <==> slot.points(),
            closure matches Some(found) ==> found.slotted() == slot,
    {
        if slot.is_pointer() {
            Some(ClosureRef(slot))
        } else {
            None
        }
    }

    fn offset(self) -> (offset: u32)
        requires
            self.slotted().points(),
        ensures
            offset == self.at(),
    {
        self.0.to_bits() - 1
    }
}

/// A function whose body is Rust: an ordinal into the table of them the isolate holds.
///
/// The code pointer is not in here. A function pointer is eight bytes and everything in the cage that
/// refers to anything is four, and it is a pointer into the text segment that every collector and
/// every snapshot would have to fix up. An ordinal has none of those properties.
#[derive(Clone, Copy, Debug, PartialEq, Eq, Hash, Structural)]
pub struct NativeRef(Slot);

impl NativeRef {
    /// The slot behind the reference.
    pub closed spec fn slotted(self) -> Slot {
        self.0
    }

    /// How the reference is written for a person: what it names and where that is.
    pub open spec fn text(self) -> Seq<char> {
        "native@"@ + self.slotted().text()
    }

    /// The reference for a person to read, which is enough to tell two of them apart.
    pub fn to_string(&self) -> (out: String)
        ensures
            out@ == self.text(),
    {
        let mut out = String::new();
        out.append("native@");
        out.append(self.0.to_string().as_str());
        assert(out@ =~= self.text());
        out
    }

    /// A slot names one reference: two with the same slot, pointing at one offset, or written alike are
    /// the same.
    pub proof fn law_a_slot_names_one_reference(self, other: NativeRef)
        ensures
            self.slotted() == other.slotted() <==> self == other,
            self.slotted().points() && other.slotted().points() && self.slotted().target()
                == other.slotted().target() ==> self == other,
            self.text() == other.text() <==> self == other,
            self.text() == "native@"@ + self.slotted().text(),
    {
        lemma_ends_agree("native@"@, self.slotted().text(), other.slotted().text());
        law_a_slot_is_its_text(self.slotted(), other.slotted());
    }

    /// The offset the reference names.
    pub open spec fn at(self) -> int {
        self.slotted().target()
    }

    /// Whether the reference names a native in a heap.
    pub open spec fn names_in(self, blocks: Blocks) -> bool {
        self.slotted().points() && is_native(blocks, self.at())
    }

    /// Stamp out a native calling entry `ordinal` of the isolate's table.
    ///
    /// Returns `None` if the heap is full.
    #[must_use]
    pub fn new(heap: &mut BumpHeap, ordinal: u32) -> (native: Option<NativeRef>)
        requires
            old(heap).wf(),
        ensures
            final(heap).wf(),
            native is Some <==> old(heap).has_room(8),
            native is None ==> *final(heap) == *old(heap),
            native matches Some(made) ==> {
                &&& made.at() == old(heap).next()
                &&& made.names_in(final(heap)@)
                &&& !old(heap)@.contains_key(made.at())
                &&& final(heap)@ == old(heap)@.insert(made.at(), final(heap)@[made.at()])
                &&& moved_on(*old(heap), *final(heap), ObjectKind::Native, 8)
                &&& ordinal_of(final(heap)@, made.at()) == ordinal
            },
    {
        broadcast use group_words;

        let ghost before = *heap;
        let slot = match allocate_slot(heap, 8, ObjectKind::Native) {
            Some(slot) => slot,
            None => {
                return None;
            },
        };
        let offset: u32 = slot.to_bits() - 1;
        write_kind(heap, offset, HeapKind::Native);
        write_u32(heap, offset, 4, ordinal);
        let native = NativeRef(slot);
        proof {
            let block = Block::fresh(ObjectKind::Native, 8).put_u32(0, 6).put_u32(4, ordinal);
            assert(heap@ =~= before@.insert(native.at(), block));
            lemma_other_blocks_do_not_matter(before@, native.at(), block);
        }
        Some(native)
    }

    /// Which entry in the table this native calls.
    #[must_use]
    pub fn ordinal(self, cage: &Cage) -> (ordinal: u32)
        requires
            cage.laid_out(),
            self.names_in(cage@),
        ensures
            ordinal == ordinal_of(cage@, self.at()),
    {
        read_u32(cage, self.0.to_bits() - 1, 4)
    }

    /// The slot this native lives at.
    #[must_use]
    pub fn slot(self) -> (slot: Slot)
        ensures
            slot == self.slotted(),
    {
        self.0
    }

    /// Read a native back out of a slot, or `None` if the slot is not a pointer.
    #[must_use]
    pub fn from_slot(slot: Slot) -> (native: Option<NativeRef>)
        ensures
            native is Some <==> slot.points(),
            native matches Some(found) ==> found.slotted() == slot,
    {
        if slot.is_pointer() {
            Some(NativeRef(slot))
        } else {
            None
        }
    }
}

/// One level of environment: the variables at this level, and the level outside it.
///
/// A context exists only when scope analysis found a variable a nested function reads. That is why
/// the chain a closure walks is shorter than the nesting of the source.
#[derive(Clone, Copy, Debug, PartialEq, Eq, Hash, Structural)]
pub struct ContextRef(Slot);

impl ContextRef {
    /// The slot behind the reference.
    pub closed spec fn slotted(self) -> Slot {
        self.0
    }

    /// How the reference is written for a person: what it names and where that is.
    pub open spec fn text(self) -> Seq<char> {
        "env@"@ + self.slotted().text()
    }

    /// The reference for a person to read, which is enough to tell two of them apart.
    pub fn to_string(&self) -> (out: String)
        ensures
            out@ == self.text(),
    {
        let mut out = String::new();
        out.append("env@");
        out.append(self.0.to_string().as_str());
        assert(out@ =~= self.text());
        out
    }

    /// A slot names one reference: two with the same slot, pointing at one offset, or written alike are
    /// the same.
    pub proof fn law_a_slot_names_one_reference(self, other: ContextRef)
        ensures
            self.slotted() == other.slotted() <==> self == other,
            self.slotted().points() && other.slotted().points() && self.slotted().target()
                == other.slotted().target() ==> self == other,
            self.text() == other.text() <==> self == other,
            self.text() == "env@"@ + self.slotted().text(),
    {
        lemma_ends_agree("env@"@, self.slotted().text(), other.slotted().text());
        law_a_slot_is_its_text(self.slotted(), other.slotted());
    }

    /// The offset the reference names.
    pub open spec fn at(self) -> int {
        self.slotted().target()
    }

    /// Whether the reference names a context in a heap.
    pub open spec fn names_in(self, blocks: Blocks) -> bool {
        self.slotted().points() && is_context(blocks, self.at())
    }

    /// Allocate a context with `cells` cells, nested inside `parent`.
    ///
    /// Every cell starts as the raw bits given by `empty`, which the caller passes because the value
    /// encoding lives a layer up from the heap. Zeroed memory would be a valid double rather than a
    /// hole.
    ///
    /// Returns `None` if the heap is full or the context is larger than the cage.
    #[must_use]
    pub fn new(
        heap: &mut BumpHeap,
        parent: Option<ContextRef>,
        cells: u32,
        empty: u64,
    ) -> (context: Option<ContextRef>)
        requires
            old(heap).wf(),
        ensures
            final(heap).wf(),
            context is Some <==> old(heap).has_room(16 + 8 * cells),
            context is None ==> *final(heap) == *old(heap),
            context matches Some(made) ==> {
                &&& made.at() == old(heap).next()
                &&& made.names_in(final(heap)@)
                &&& !old(heap)@.contains_key(made.at())
                &&& final(heap)@ == old(heap)@.insert(made.at(), final(heap)@[made.at()])
                &&& moved_on(*old(heap), *final(heap), ObjectKind::Context, 16 + 8 * cells)
                &&& outer_of(final(heap)@, made.at()) == match parent {
                    Some(outer) => outer.slotted(),
                    None => Slot(0),
                }
                &&& cells_of(final(heap)@, made.at()) == Seq::new(cells as nat, |i: int| empty)
            },
    {
        broadcast use group_words;

        let ghost before = *heap;
        proof {
            heap.lemma_addresses_are_wide();
        }
        let bytes: usize = 16 + 8 * cells as usize;
        let slot = match allocate_slot(heap, bytes, ObjectKind::Context) {
            Some(slot) => slot,
            None => {
                return None;
            },
        };
        let offset: u32 = slot.to_bits() - 1;
        let parent_bits: u32 = match parent {
            Some(outer) => outer.slot().to_bits(),
            None => 0,
        };
        write_kind(heap, offset, HeapKind::Context);
        write_u32(heap, offset, 4, parent_bits);
        write_u32(heap, offset, 8, cells);
        let context = ContextRef(slot);
        let mut index: u32 = 0;
        assert(heap@ =~= before@.insert(offset as int, heap@[offset as int]));
        while index < cells
            invariant
                index <= cells,
                bytes == 16 + 8 * cells,
                usize::MAX >= crate::gc::cage::CAGE_SIZE,
                heap.laid_out(),
                heap@.contains_key(offset as int),
                heap@ == before@.insert(offset as int, heap@[offset as int]),
                heap@[offset as int].kind == ObjectKind::Context,
                heap@[offset as int].bytes.len() == bytes,
                moved_on(before, *heap, ObjectKind::Context, bytes as int),
                u32_at(heap@[offset as int].bytes, 0) == 4,
                u32_at(heap@[offset as int].bytes, 4) == parent_bits,
                u32_at(heap@[offset as int].bytes, 8) == cells,
                forall|i: int|
                    0 <= i < index ==> #[trigger] u64_at(heap@[offset as int].bytes, 16 + 8 * i)
                        == empty,
            decreases cells - index,
        {
            broadcast use group_words;

            write_u64(heap, offset, 16 + 8 * index as usize, empty);
            assert(heap@ =~= before@.insert(offset as int, heap@[offset as int]));
            index = index + 1;
        }
        proof {
            lemma_other_blocks_do_not_matter(before@, context.at(), heap@[context.at()]);
            assert(cells_of(heap@, context.at()) =~= Seq::new(cells as nat, |i: int| empty));
        }
        Some(context)
    }

    /// The context this one is nested inside, or `None` at the outermost level.
    #[must_use]
    pub fn parent(self, cage: &Cage) -> (parent: Option<ContextRef>)
        requires
            cage.laid_out(),
            self.names_in(cage@),
        ensures
            parent is Some <==> outer_of(cage@, self.at()).points(),
            parent matches Some(found) ==> found.slotted() == outer_of(cage@, self.at()),
    {
        ContextRef::from_slot(Slot::from_bits(read_u32(cage, self.offset(), 4)))
    }

    /// How many cells this context holds.
    #[must_use]
    pub fn len(self, cage: &Cage) -> (count: u32)
        requires
            cage.laid_out(),
            self.names_in(cage@),
        ensures
            count == cells_of(cage@, self.at()).len(),
    {
        read_u32(cage, self.offset(), 8)
    }

    /// Whether this context holds no cells at all, which lowering does not currently produce.
    #[must_use]
    pub fn is_empty(self, cage: &Cage) -> (empty: bool)
        requires
            cage.laid_out(),
            self.names_in(cage@),
        ensures
            empty == (cells_of(cage@, self.at()).len() == 0),
    {
        self.len(cage) == 0
    }

    /// Read a cell, or `None` if the index is past the end.
    ///
    /// Bounds checked rather than trusted, because the index comes from bytecode and a wrong one
    /// would read the object that happens to sit after this context in the heap.
    #[must_use]
    pub fn cell(self, cage: &Cage, index: u32) -> (bits: Option<u64>)
        requires
            cage.laid_out(),
            self.names_in(cage@),
        ensures
            bits == if index < cells_of(cage@, self.at()).len() {
                Some(cells_of(cage@, self.at())[index as int])
            } else {
                None
            },
    {
        if index >= self.len(cage) {
            return None;
        }
        proof {
            cage.lemma_allocations_are_inside(self.at());
            cage.lemma_addresses_are_wide();
        }
        Some(read_u64(cage, self.offset(), 16 + 8 * index as usize))
    }

    /// Write a cell, doing nothing and answering `false` if the index is past the end.
    ///
    /// Takes the heap rather than the cage because this is a mutation, and the heap is the thing a
    /// caller has to hold exclusively to be allowed to make one.
    pub fn set_cell(self, heap: &mut BumpHeap, index: u32, bits: u64) -> (stored: bool)
        requires
            old(heap).wf(),
            self.names_in(old(heap)@),
        ensures
            final(heap).wf(),
            final(heap).stays(*old(heap)),
            self.names_in(final(heap)@),
            stored == (index < cells_of(old(heap)@, self.at()).len()),
            !stored ==> *final(heap) == *old(heap),
            final(heap)@ == old(heap)@.insert(self.at(), final(heap)@[self.at()]),
            outer_of(final(heap)@, self.at()) == outer_of(old(heap)@, self.at()),
            stored ==> cells_of(final(heap)@, self.at()) == cells_of(
                old(heap)@,
                self.at(),
            ).update(index as int, bits),
    {
        broadcast use group_words;

        let ghost before = heap@;
        if index >= self.len(heap.cage()) {
            assert(heap@ =~= before.insert(self.at(), heap@[self.at()]));
            return false;
        }
        proof {
            heap.cage_lemma(self.at());
        }
        write_u64(heap, self.offset(), 16 + 8 * index as usize, bits);
        proof {
            let block = before[self.at()].put_u64(16 + 8 * index, bits);
            assert(heap@ =~= before.insert(self.at(), heap@[self.at()]));
            lemma_other_blocks_do_not_matter(before, self.at(), block);
            assert(cells_of(heap@, self.at()) =~= cells_of(before, self.at()).update(
                index as int,
                bits,
            ));
        }
        true
    }

    /// The slot this context lives at.
    #[must_use]
    pub fn slot(self) -> (slot: Slot)
        ensures
            slot == self.slotted(),
    {
        self.0
    }

    /// Read a context back out of a slot, or `None` if the slot is not a pointer.
    ///
    /// Zero is unambiguous as an absence, which is what a parent field holds at the outermost level
    /// and what a frame holds when its function captured nothing.
    #[must_use]
    pub fn from_slot(slot: Slot) -> (context: Option<ContextRef>)
        ensures
            context is Some <==> slot.points(),
            context matches Some(found) ==> found.slotted() == slot,
    {
        if slot.is_pointer() {
            Some(ContextRef(slot))
        } else {
            None
        }
    }

    fn offset(self) -> (offset: u32)
        requires
            self.slotted().points(),
        ensures
            offset == self.at(),
    {
        self.0.to_bits() - 1
    }
}

} // verus!
