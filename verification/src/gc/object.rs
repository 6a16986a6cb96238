//! What every object in the cage has in common, which is one word and a way to read it.
//!
//! # How the kinds are told apart
//!
//! Every object in the cage starts with the same word. It is a [`Slot`], so its low bit says whether
//! it holds a pointer or a small integer. A shape is a pointer. A kind tag is a small integer. So a
//! kind tag written there is not something a shape can ever be mistaken for.
//!
//! Zero is a string, and that is not an arbitrary assignment. A fresh allocation is zero, so every
//! string ever allocated already has a zero in that word without a single instruction being spent on
//! it.

use vstd::prelude::*;

use crate::gc::block::{
    group_words, u16_at, u32_at, u64_at, with_u16, with_u32, with_u64, Block, Blocks,
};
use crate::gc::bump::{in_chunks, rounded, BumpHeap, ObjectKind};
use crate::gc::cage::{Cage, Slot};
use crate::gc::elements::is_elements;
use crate::gc::function::{is_closure, is_context, is_native};
use crate::gc::ordinary::{
    is_array, is_object, lemma_objects_carry_over, object_fits, object_kept, objects_hold, others_kept,
};
use crate::gc::record::is_record;
use crate::gc::shape::{is_shape, lemma_shapes_do_not_mind, shapes_hold, shapes_kept};
use crate::gc::string::{is_string, strings_hold};

verus! {

/// Whether everything laid out in a heap is well formed.
pub open spec fn objects_hold_together(blocks: Blocks) -> bool {
    &&& strings_hold(blocks)
    &&& shapes_hold(blocks)
    &&& objects_hold(blocks)
}

/// Whether two heaps have the same blocks but for shapes.
pub open spec fn same_but_for_shapes(before: Blocks, after: Blocks) -> bool {
    &&& forall|offset: int| #[trigger]
        before.contains_key(offset) && before[offset].kind != ObjectKind::Shape
            ==> after.contains_key(offset) && after[offset] == before[offset]
    &&& forall|offset: int| #[trigger]
        after.contains_key(offset) && after[offset].kind != ObjectKind::Shape
            ==> before.contains_key(offset) && before[offset] == after[offset]
}

/// Nothing but the shapes minds what happens to shapes, as long as they stay shapes.
pub proof fn lemma_shapes_do_not_disturb_the_rest(before: Blocks, after: Blocks)
    requires
        objects_hold_together(before),
        shapes_hold(after),
        shapes_kept(before, after),
        same_but_for_shapes(before, after),
    ensures
        objects_hold_together(after),
{
    lemma_objects_carry_over(before, after);
}

/// Blocks that are no shapes can come and go without the shapes noticing.
pub proof fn lemma_no_shape_joins(blocks: Blocks, offset: int, block: Block)
    requires
        shapes_hold(blocks),
        !blocks.contains_key(offset) || blocks[offset].kind != ObjectKind::Shape,
        block.kind != ObjectKind::Shape,
    ensures
        shapes_hold(blocks.insert(offset, block)),
        shapes_kept(blocks, blocks.insert(offset, block)),
        forall|other: int| #[trigger]
            is_shape(blocks.insert(offset, block), other) == is_shape(blocks, other),
{
    lemma_shapes_do_not_mind(blocks, offset, block);
}

/// A fresh block is an empty string or nothing at all yet, so adding one keeps everything well
/// formed.
pub proof fn lemma_fresh_block_is_no_object_yet(
    blocks: Blocks,
    offset: int,
    kind: ObjectKind,
    size: nat,
)
    requires
        objects_hold_together(blocks),
        !blocks.contains_key(offset),
    ensures
        objects_hold_together(blocks.insert(offset, Block::fresh(kind, size))),
{
    broadcast use group_words;

    crate::gc::string::lemma_a_fresh_block_is_an_empty_string(blocks, offset, kind, size);
    let block = Block::fresh(kind, size);
    assert(!is_shape(blocks.insert(offset, block), offset));
    lemma_shapes_do_not_mind(blocks, offset, block);
    lemma_objects_carry_over(blocks, blocks.insert(offset, block));
}

/// A block that is no string, no shape, no object and no overflow array does not matter to the rest.
pub proof fn lemma_other_blocks_do_not_matter(blocks: Blocks, offset: int, block: Block)
    requires
        objects_hold_together(blocks),
        !blocks.contains_key(offset) || is_plain(blocks[offset]),
        is_plain(block),
    ensures
        objects_hold_together(blocks.insert(offset, block)),
        shapes_kept(blocks, blocks.insert(offset, block)),
        others_kept(blocks, blocks.insert(offset, block), offset),
{
    let after = blocks.insert(offset, block);
    lemma_no_shape_joins(blocks, offset, block);
    assert forall|other: int| #[trigger] is_object(after, other) implies is_object(blocks, other)
        && after[other] == blocks[other] by {}
    lemma_objects_carry_over(blocks, after);
    assert forall|other: int| #[trigger] is_object(blocks, other) && other != offset implies
        object_kept(blocks, after, other) by {
        assert(object_fits(blocks, other));
    }
}

/// Whether a block is none of those that other blocks name.
pub open spec fn is_plain(block: Block) -> bool {
    &&& block.kind != ObjectKind::String
    &&& block.kind != ObjectKind::Shape
    &&& block.kind != ObjectKind::Properties
    &&& block.kind == ObjectKind::Object ==> !Slot(u32_at(block.bytes, 0)).points()
}

/// The kinds are told apart by the first word alone: whatever is at an offset, it is one kind and a
/// look at that word says which.
pub proof fn law_the_first_word_says_what_is_there(blocks: Blocks, offset: int)
    ensures
        is_string(blocks, offset) ==> kind_of_word(u32_at(blocks[offset].bytes, 0)) == Some(
            HeapKind::String,
        ),
        is_shape(blocks, offset) ==> kind_of_word(u32_at(blocks[offset].bytes, 0)) == Some(
            HeapKind::Shape,
        ),
        is_object(blocks, offset) ==> kind_of_word(u32_at(blocks[offset].bytes, 0)) == Some(
            HeapKind::Object,
        ),
        is_array(blocks, offset) ==> kind_of_word(u32_at(blocks[offset].bytes, 0)) == Some(
            HeapKind::Properties,
        ),
        is_elements(blocks, offset) ==> kind_of_word(u32_at(blocks[offset].bytes, 0)) == Some(
            HeapKind::Elements,
        ),
        is_record(blocks, offset) ==> kind_of_word(u32_at(blocks[offset].bytes, 0)) == Some(
            HeapKind::Record,
        ),
        is_closure(blocks, offset) ==> kind_of_word(u32_at(blocks[offset].bytes, 0)) == Some(
            HeapKind::Closure,
        ),
        is_native(blocks, offset) ==> kind_of_word(u32_at(blocks[offset].bytes, 0)) == Some(
            HeapKind::Native,
        ),
        is_context(blocks, offset) ==> kind_of_word(u32_at(blocks[offset].bytes, 0)) == Some(
            HeapKind::Context,
        ),
{
}

/// What kind of object a pointer in the cage points at.
///
/// It answers the question an interpreter actually asks: is this a string, is it callable, is it
/// something with properties on it, or is it something the caller has no arm for yet.
#[derive(Clone, Copy, Debug, PartialEq, Eq, Structural)]
pub enum HeapKind {
    /// A string in any of its representations.
    String,
    /// A closure: a blueprint plus the environment it captured.
    Closure,
    /// One level of environment, holding the variables a nested function captured.
    Context,
    /// A function whose body is Rust rather than bytecode.
    Native,
    /// An ordinary object: the thing a program makes with `{}` and puts properties on.
    ///
    /// The only kind with no tag of its own, because its first word holds a shape and a shape is a
    /// pointer.
    Object,
    /// A shape, which is shared by every object with the same properties in the same order.
    Shape,
    /// The values of an object that did not fit in the room it was built with.
    Properties,
    /// A getter and a setter, sitting in the slot where an ordinary property keeps its value.
    AccessorPair,
    /// The indexed properties of an object, addressed by the integer rather than by a name.
    Elements,
    /// A fixed list of named values, laid out once and never grown.
    Record,
}

/// The kind that a first word stands for, if it stands for one.
pub open spec fn kind_of_word(word: u32) -> Option<HeapKind> {
    if Slot(word).points() {
        Some(HeapKind::Object)
    } else if word == 0 {
        Some(HeapKind::String)
    } else if word == 2 {
        Some(HeapKind::Closure)
    } else if word == 4 {
        Some(HeapKind::Context)
    } else if word == 6 {
        Some(HeapKind::Native)
    } else if word == 8 {
        Some(HeapKind::Shape)
    } else if word == 10 {
        Some(HeapKind::Properties)
    } else if word == 12 {
        Some(HeapKind::AccessorPair)
    } else if word == 14 {
        Some(HeapKind::Elements)
    } else if word == 16 {
        Some(HeapKind::Record)
    } else {
        None
    }
}

impl HeapKind {
    /// The word this kind has at its start, for the kinds whose first word is always the same.
    pub open spec fn word(self) -> Option<u32> {
        match self {
            HeapKind::String => Some(0u32),
            HeapKind::Closure => Some(2u32),
            HeapKind::Context => Some(4u32),
            HeapKind::Native => Some(6u32),
            HeapKind::Shape => Some(8u32),
            HeapKind::Properties => Some(10u32),
            HeapKind::AccessorPair => Some(12u32),
            HeapKind::Elements => Some(14u32),
            HeapKind::Record => Some(16u32),
            HeapKind::Object => None,
        }
    }

    /// The tag this kind writes into the first word, for the kinds that write one.
    ///
    /// A small integer rather than a raw number, so the low bit says integer rather than pointer and
    /// a shape can never be read as a kind by accident. An ordinary object has no tag: it writes a
    /// shape into that word instead, which is what tells it apart from all of these.
    pub(crate) fn tag(self) -> (tag: Option<u32>)
        ensures
            tag == self.word(),
            tag matches Some(word) ==> kind_of_word(word) == Some(self) && !Slot(word).points(),
    {
        match self {
            HeapKind::String => Some(0),
            HeapKind::Closure => Some(2),
            HeapKind::Context => Some(4),
            HeapKind::Native => Some(6),
            HeapKind::Shape => Some(8),
            HeapKind::Properties => Some(10),
            HeapKind::AccessorPair => Some(12),
            HeapKind::Elements => Some(14),
            HeapKind::Record => Some(16),
            HeapKind::Object => None,
        }
    }

    /// What a slot points at, or `None` if it is not a pointer or points at a tag nobody wrote.
    ///
    /// A slot that is a pointer points at an allocation, and every allocation that is an object is at
    /// least one word long. An unrecognised tag is `None` rather than a panic.
    #[must_use]
    pub fn of(cage: &Cage, slot: Slot) -> (kind: Option<HeapKind>)
        requires
            cage.laid_out(),
            slot.points() ==> cage@.contains_key(slot.target())
                && cage@[slot.target()].bytes.len() >= 4,
        ensures
            kind == if slot.points() {
                kind_of_word(u32_at(cage@[slot.target()].bytes, 0))
            } else {
                None
            },
    {
        let offset: u32 = match slot.as_offset() {
            Some(offset) => offset,
            None => {
                return None;
            },
        };
        let first = Slot::from_bits(read_u32(cage, offset, 0));
        // A pointer in that word is a shape, and only an ordinary object has one there.
        if first.is_pointer() {
            return Some(HeapKind::Object);
        }
        match first.to_bits() {
            0 => Some(HeapKind::String),
            2 => Some(HeapKind::Closure),
            4 => Some(HeapKind::Context),
            6 => Some(HeapKind::Native),
            8 => Some(HeapKind::Shape),
            10 => Some(HeapKind::Properties),
            12 => Some(HeapKind::AccessorPair),
            14 => Some(HeapKind::Elements),
            16 => Some(HeapKind::Record),
            _ => None,
        }
    }
}

/// The offset a freshly allocated address sits at, as a slot.
pub(crate) fn slot_of(cage: &Cage, address: u64) -> (slot: Option<Slot>)
    requires
        cage.laid_out(),
        (address - cage.base_address()) % 8 == 0,
    ensures
        slot is Some <==> cage.base_address() <= address < cage.base_address()
            + crate::gc::cage::CAGE_SIZE,
        slot matches Some(found) ==> found == Slot::of_target(address - cage.base_address())
            && found.points() && found.target() == address - cage.base_address(),
{
    match cage.offset_of(address) {
        Some(offset) => Some(Slot::from_offset(offset)),
        None => None,
    }
}

/// Allocate a block and name it by its slot.
pub(crate) fn allocate_slot(heap: &mut BumpHeap, bytes: usize, kind: ObjectKind) -> (slot: Option<
    Slot,
>)
    requires
        old(heap).laid_out(),
    ensures
        final(heap).laid_out(),
        slot is Some <==> old(heap).has_room(bytes as int),
        slot is None ==> *final(heap) == *old(heap),
        slot matches Some(found) ==> found == Slot::of_target(old(heap).next()) && found.points()
            && found.target() == old(heap).next() && fresh_block(
            *old(heap),
            *final(heap),
            kind,
            bytes as int,
        ),
{
    let ghost before = *heap;
    match heap.allocate(bytes, kind) {
        Some(address) => {
            proof {
                heap.cage_lemma(before.next());
            }
            slot_of(heap.cage(), address)
        },
        None => None,
    }
}

/// What an allocation of `bytes` does to a heap: one more block of zeroes where the cursor was.
pub open spec fn fresh_block(before: BumpHeap, after: BumpHeap, kind: ObjectKind, bytes: int) -> bool {
    &&& 0 <= before.next() <= u32::MAX
    &&& before.next() % 8 == 0
    &&& !before@.contains_key(before.next())
    &&& after@ == before@.insert(before.next(), Block::fresh(kind, bytes as nat))
    &&& moved_on(before, after, kind, bytes)
}

/// What an allocation of `bytes` does to the allocator itself.
pub open spec fn moved_on(before: BumpHeap, after: BumpHeap, kind: ObjectKind, bytes: int) -> bool {
    let committed = after.next() > before.readable();
    &&& after.next() == before.next() + rounded(bytes)
    &&& after.counted().counts(kind, bytes, before.counted())
    &&& after.readable() == if committed {
        in_chunks(after.next())
    } else {
        before.readable()
    }
    &&& after.counted().commit_count == before.counted().commit_count + (if committed {
        1int
    } else {
        0
    })
    &&& after.caged().base_address() == before.caged().base_address()
    &&& after.caged().page_size() == before.caged().page_size()
}

/// What an allocation of `bytes` does to the allocator itself, where no bytes are no allocation.
pub open spec fn took(before: BumpHeap, after: BumpHeap, kind: ObjectKind, bytes: int) -> bool {
    if bytes == 0 {
        after.stays(before)
    } else {
        moved_on(before, after, kind, bytes)
    }
}

/// Stamp the kind tag into the first word of a freshly allocated object.
///
/// An ordinary object is the kind without a tag: it writes a shape there.
pub(crate) fn write_kind(heap: &mut BumpHeap, offset: u32, kind: HeapKind)
    requires
        old(heap).laid_out(),
        old(heap)@.contains_key(offset as int),
        4 <= old(heap)@[offset as int].bytes.len(),
        kind != HeapKind::Object,
    ensures
        final(heap).laid_out(),
        final(heap).stays(*old(heap)),
        final(heap)@ == old(heap)@.insert(
            offset as int,
            old(heap)@[offset as int].put_u32(0, kind.word()->0),
        ),
{
    if let Some(tag) = kind.tag() {
        write_u32(heap, offset, 0, tag);
    }
}

/// One byte of an object.
pub(crate) fn read_u8(cage: &Cage, offset: u32, at: usize) -> (value: u8)
    requires
        cage.laid_out(),
        cage@.contains_key(offset as int),
        at < cage@[offset as int].bytes.len(),
    ensures
        value == cage@[offset as int].bytes[at as int],
{
    cage.get_u8(offset, at)
}

/// A two byte field of an object.
pub(crate) fn read_u16(cage: &Cage, offset: u32, at: usize) -> (value: u16)
    requires
        cage.laid_out(),
        cage@.contains_key(offset as int),
        at + 2 <= cage@[offset as int].bytes.len(),
    ensures
        value == u16_at(cage@[offset as int].bytes, at as int),
{
    proof {
        cage.lemma_allocations_are_inside(offset as int);
        cage.lemma_addresses_are_wide();
        reveal(u16_at);
    }
    cage.get_u8(offset, at) as u16 + 256 * cage.get_u8(offset, at + 1) as u16
}

/// A four byte field of an object.
pub(crate) fn read_u32(cage: &Cage, offset: u32, at: usize) -> (value: u32)
    requires
        cage.laid_out(),
        cage@.contains_key(offset as int),
        at + 4 <= cage@[offset as int].bytes.len(),
    ensures
        value == u32_at(cage@[offset as int].bytes, at as int),
{
    proof {
        cage.lemma_allocations_are_inside(offset as int);
        cage.lemma_addresses_are_wide();
        reveal(u32_at);
    }
    cage.get_u8(offset, at) as u32 + 256 * cage.get_u8(offset, at + 1) as u32 + 65536
        * cage.get_u8(offset, at + 2) as u32 + 16777216 * cage.get_u8(offset, at + 3) as u32
}

/// An eight byte field of an object.
pub(crate) fn read_u64(cage: &Cage, offset: u32, at: usize) -> (value: u64)
    requires
        cage.laid_out(),
        cage@.contains_key(offset as int),
        at + 8 <= cage@[offset as int].bytes.len(),
    ensures
        value == u64_at(cage@[offset as int].bytes, at as int),
{
    proof {
        cage.lemma_allocations_are_inside(offset as int);
        cage.lemma_addresses_are_wide();
        reveal(u64_at);
    }
    read_u32(cage, offset, at) as u64 + 4294967296 * read_u32(cage, offset, at + 4) as u64
}

/// Write a two byte field of an object.
pub(crate) fn write_u16(heap: &mut BumpHeap, offset: u32, at: usize, value: u16)
    requires
        old(heap).laid_out(),
        old(heap)@.contains_key(offset as int),
        at + 2 <= old(heap)@[offset as int].bytes.len(),
    ensures
        final(heap).laid_out(),
        final(heap).stays(*old(heap)),
        final(heap)@ == old(heap)@.insert(
            offset as int,
            old(heap)@[offset as int].put_u16(at as int, value),
        ),
{
    let ghost before = heap@;
    proof {
        heap.cage_lemma(offset as int);
        reveal(with_u16);
    }
    heap.write_byte(offset, at, (value % 256) as u8);
    heap.write_byte(offset, at + 1, (value / 256) as u8);
    assert(heap@ =~= before.insert(
        offset as int,
        before[offset as int].put_u16(at as int, value),
    ));
}

/// Write a four byte field of an object.
pub(crate) fn write_u32(heap: &mut BumpHeap, offset: u32, at: usize, value: u32)
    requires
        old(heap).laid_out(),
        old(heap)@.contains_key(offset as int),
        at + 4 <= old(heap)@[offset as int].bytes.len(),
    ensures
        final(heap).laid_out(),
        final(heap).stays(*old(heap)),
        final(heap)@ == old(heap)@.insert(
            offset as int,
            old(heap)@[offset as int].put_u32(at as int, value),
        ),
{
    let ghost before = heap@;
    proof {
        heap.cage_lemma(offset as int);
        reveal(with_u32);
    }
    heap.write_byte(offset, at, (value % 256) as u8);
    heap.write_byte(offset, at + 1, (value / 256 % 256) as u8);
    heap.write_byte(offset, at + 2, (value / 65536 % 256) as u8);
    heap.write_byte(offset, at + 3, (value / 16777216) as u8);
    assert(heap@ =~= before.insert(
        offset as int,
        before[offset as int].put_u32(at as int, value),
    ));
}

/// Write an eight byte field of an object.
pub(crate) fn write_u64(heap: &mut BumpHeap, offset: u32, at: usize, value: u64)
    requires
        old(heap).laid_out(),
        old(heap)@.contains_key(offset as int),
        at + 8 <= old(heap)@[offset as int].bytes.len(),
    ensures
        final(heap).laid_out(),
        final(heap).stays(*old(heap)),
        final(heap)@ == old(heap)@.insert(
            offset as int,
            old(heap)@[offset as int].put_u64(at as int, value),
        ),
{
    broadcast use group_words;

    let ghost before = heap@;
    proof {
        heap.cage_lemma(offset as int);
        reveal(with_u64);
    }
    write_u32(heap, offset, at, (value % 4294967296) as u32);
    write_u32(heap, offset, at + 4, (value / 4294967296) as u32);
    assert(heap@ =~= before.insert(
        offset as int,
        before[offset as int].put_u64(at as int, value),
    ));
}

/// Which word says what: a zero is a string, an even word that was given to a kind is that kind, a
/// pointer is an ordinary object, because what stands there is its shape, and any other is nothing.
pub proof fn law_which_word_says_what(word: u32)
    ensures
        kind_of_word(word) == if word % 2 == 1 {
            Some(HeapKind::Object)
        } else if word == 0 {
            Some(HeapKind::String)
        } else if word == 2 {
            Some(HeapKind::Closure)
        } else if word == 4 {
            Some(HeapKind::Context)
        } else if word == 6 {
            Some(HeapKind::Native)
        } else if word == 8 {
            Some(HeapKind::Shape)
        } else if word == 10 {
            Some(HeapKind::Properties)
        } else if word == 12 {
            Some(HeapKind::AccessorPair)
        } else if word == 14 {
            Some(HeapKind::Elements)
        } else if word == 16 {
            Some(HeapKind::Record)
        } else {
            None
        },
{
}

} // verus!
