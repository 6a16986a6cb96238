//! Indexed properties: the values a program reaches with `a[0]` rather than `a.x`.
//!
//! Indices do not go in the shape. They go in a separate array hanging off the object, addressed by
//! the integer directly, and reading one is a bounds check and a load.
//!
//! # The layout
//!
//! ```text
//! [kind][capacity][value 0][value 1]...
//! ```
//!
//! # Why there is no length in here
//!
//! Because the two callers want two different lengths and neither of them is this one. An array's
//! `length` is an own property of the array, and an ordinary object with `o[5] = 1` on it has no
//! length at all.
//!
//! # The hole is free
//!
//! A hole is the bit pattern zero, and a fresh allocation is zero. So a freshly allocated elements
//! array is entirely holes without a single store.

use vstd::prelude::*;

use crate::gc::block::{group_words, u32_at, u64_at, Block, Blocks};
use crate::gc::bump::{BumpHeap, ObjectKind};
use crate::gc::cage::{law_a_slot_is_its_text, Cage, Slot};
use crate::gc::object::{
    allocate_slot, lemma_other_blocks_do_not_matter, moved_on, read_u32, read_u64, write_kind,
    write_u32, write_u64, HeapKind,
};
use crate::text::lemma_ends_agree;

verus! {

/// Bytes before the first value: the kind tag and the capacity.
pub const ELEMENTS_HEADER: usize = 8;

/// What an index reads back as when nothing was ever written there.
pub const HOLE: u64 = 0;

/// What an index reads back as when the property is here but its value is not.
///
/// One, which is not a value any encoding produces, so it cannot be confused with one. It means the
/// index is a property of this object under the text of the number instead.
pub const NAMED: u64 = 1;

/// Whether these bits are a value rather than one of the two words that stand in for the absence of
/// one.
///
/// One comparison rather than two, which is why [`HOLE`] and [`NAMED`] are the two smallest numbers
/// there are.
#[must_use]
pub fn is_value(bits: u64) -> (value: bool)
    ensures
        value == (bits != HOLE && bits != NAMED),
{
    bits > NAMED
}

/// How many values the first elements array holds.
pub const FIRST_ELEMENTS: u32 = 4;

/// How far past the end a write may reach before element storage stops being worth it.
///
/// Past this gap the index goes in the shape under the text of the number instead, where it costs
/// what one property costs.
pub const MAX_GAP: u32 = 1024;

/// What happened to a write of an indexed property.
#[derive(Clone, Copy, Debug, PartialEq, Eq, Structural)]
pub enum Stored {
    /// The value is in the elements array.
    Yes,
    /// The index is too far past the end for element storage to pay, and the caller should put the
    /// value under the text of the number instead.
    TooSparse,
    /// The index is already a property of this object under the text of the number, so the write
    /// belongs there and not here.
    Named,
    /// The heap is full, or the array the write asked for would be larger than the cage.
    NoRoom,
}

/// How many values the elements array at `offset` has room for.
pub open spec fn elements_capacity(blocks: Blocks, offset: int) -> u32 {
    u32_at(blocks[offset].bytes, 4)
}

/// Whether there is an elements array at an offset.
pub open spec fn is_elements(blocks: Blocks, offset: int) -> bool {
    &&& blocks.contains_key(offset)
    &&& 0 <= offset <= u32::MAX
    &&& offset % 8 == 0
    &&& blocks[offset].kind == ObjectKind::Elements
    &&& blocks[offset].bytes.len() >= 8
    &&& u32_at(blocks[offset].bytes, 0) == 14
    &&& 8 + 8 * elements_capacity(blocks, offset) <= blocks[offset].bytes.len()
}

/// What the elements array at `offset` reads back at `index`: a hole past its end.
pub open spec fn element(blocks: Blocks, offset: int, index: int) -> u64 {
    if 0 <= index < elements_capacity(blocks, offset) {
        u64_at(blocks[offset].bytes, 8 + 8 * index)
    } else {
        HOLE
    }
}

/// How large an array becomes to hold `index`, if it is worth building.
pub open spec fn grown_size(capacity: u32, index: u32) -> Option<u32> {
    let wanted = index + 1;
    let doubled: int = if 2 * capacity <= u32::MAX {
        2 * capacity
    } else {
        u32::MAX as int
    };
    if index - capacity > MAX_GAP || wanted > u32::MAX {
        None
    } else if doubled >= wanted && doubled >= FIRST_ELEMENTS {
        Some(doubled as u32)
    } else if wanted >= FIRST_ELEMENTS {
        Some(wanted as u32)
    } else {
        Some(FIRST_ELEMENTS)
    }
}

/// The indexed properties of an object.
#[derive(Clone, Copy, Debug, PartialEq, Eq, Structural)]
pub struct ElementsRef(Slot);

impl ElementsRef {
    /// The slot behind the reference.
    pub closed spec fn slotted(self) -> Slot {
        self.0
    }

    /// How the reference is written for a person: what it names and where that is.
    pub open spec fn text(self) -> Seq<char> {
        "elements@"@ + self.slotted().text()
    }

    /// The reference for a person to read, which is enough to tell two of them apart.
    pub fn to_string(&self) -> (out: String)
        ensures
            out@ == self.text(),
    {
        let mut out = String::new();
        out.append("elements@");
        out.append(self.0.to_string().as_str());
        assert(out@ =~= self.text());
        out
    }

    /// A slot names one reference: two with the same slot, pointing at one offset, or written alike are
    /// the same.
    pub proof fn law_a_slot_names_one_reference(self, other: ElementsRef)
        ensures
            self.slotted() == other.slotted() <==> self == other,
            self.slotted().points() && other.slotted().points() && self.slotted().target()
                == other.slotted().target() ==> self == other,
            self.text() == other.text() <==> self == other,
            self.text() == "elements@"@ + self.slotted().text(),
    {
        lemma_ends_agree("elements@"@, self.slotted().text(), other.slotted().text());
        law_a_slot_is_its_text(self.slotted(), other.slotted());
    }

    /// The offset the reference names.
    pub open spec fn at(self) -> int {
        self.slotted().target()
    }

    /// Whether the reference names an elements array in a heap.
    pub open spec fn names_in(self, blocks: Blocks) -> bool {
        self.slotted().points() && is_elements(blocks, self.at())
    }

    /// Allocate an array with room for `capacity` values, all of them holes.
    ///
    /// Returns `None` if the heap is full or the array would be larger than the cage.
    #[must_use]
    pub fn new(heap: &mut BumpHeap, capacity: u32) -> (elements: Option<ElementsRef>)
        requires
            old(heap).wf(),
        ensures
            final(heap).wf(),
            elements is Some <==> old(heap).has_room(8 + 8 * capacity),
            elements is None ==> *final(heap) == *old(heap),
            elements matches Some(made) ==> {
                &&& made.at() == old(heap).next()
                &&& made.names_in(final(heap)@)
                &&& !old(heap)@.contains_key(made.at())
                &&& final(heap)@ == old(heap)@.insert(made.at(), final(heap)@[made.at()])
                &&& moved_on(*old(heap), *final(heap), ObjectKind::Elements, 8 + 8 * capacity)
                &&& elements_capacity(final(heap)@, made.at()) == capacity
                &&& forall|i: int| #[trigger] element(final(heap)@, made.at(), i) == HOLE
            },
    {
        broadcast use group_words;

        let ghost before = *heap;
        proof {
            heap.lemma_addresses_are_wide();
        }
        let bytes: usize = ELEMENTS_HEADER + 8 * capacity as usize;
        let slot = match allocate_slot(heap, bytes, ObjectKind::Elements) {
            Some(slot) => slot,
            None => {
                return None;
            },
        };
        let offset: u32 = slot.to_bits() - 1;
        write_kind(heap, offset, HeapKind::Elements);
        write_u32(heap, offset, 4, capacity);
        let elements = ElementsRef(slot);
        proof {
            let block = Block::fresh(ObjectKind::Elements, bytes as nat).put_u32(0, 14).put_u32(
                4,
                capacity,
            );
            assert(heap@ =~= before@.insert(elements.at(), block));
            lemma_other_blocks_do_not_matter(before@, elements.at(), block);
        }
        Some(elements)
    }

    /// How many values this array has room for.
    #[must_use]
    pub fn capacity(self, cage: &Cage) -> (capacity: u32)
        requires
            cage.laid_out(),
            self.names_in(cage@),
        ensures
            capacity == elements_capacity(cage@, self.at()),
    {
        read_u32(cage, self.offset(), 4)
    }

    /// The value at `index`, or [`HOLE`] if the index is past the end or nothing was written there.
    ///
    /// The bounds check is here rather than left to the caller because an index out of range is the
    /// ordinary case rather than a mistake: a program that walks past the end of an array gets
    /// `undefined` and carries on.
    #[must_use]
    pub fn value_at(self, cage: &Cage, index: u32) -> (value: u64)
        requires
            cage.laid_out(),
            self.names_in(cage@),
        ensures
            value == element(cage@, self.at(), index as int),
    {
        if index >= self.capacity(cage) {
            return HOLE;
        }
        proof {
            cage.lemma_allocations_are_inside(self.at());
            cage.lemma_addresses_are_wide();
        }
        read_u64(cage, self.offset(), ELEMENTS_HEADER + 8 * index as usize)
    }

    /// Write the value at `index`.
    ///
    /// Writing past the capacity is refused, because the alternative is scribbling over whatever the
    /// heap put after this array.
    pub fn set(self, heap: &mut BumpHeap, index: u32, value: u64)
        requires
            old(heap).wf(),
            self.names_in(old(heap)@),
        ensures
            final(heap).wf(),
            final(heap).stays(*old(heap)),
            self.names_in(final(heap)@),
            final(heap)@ == old(heap)@.insert(self.at(), final(heap)@[self.at()]),
            elements_capacity(final(heap)@, self.at()) == elements_capacity(old(heap)@, self.at()),
            forall|i: int| #[trigger]
                element(final(heap)@, self.at(), i) == if i == index && index < elements_capacity(
                    old(heap)@,
                    self.at(),
                ) {
                    value
                } else {
                    element(old(heap)@, self.at(), i)
                },
    {
        broadcast use group_words;

        let ghost before = heap@;
        if index >= self.capacity(heap.cage()) {
            assert(heap@ =~= before.insert(self.at(), heap@[self.at()]));
            return ;
        }
        proof {
            heap.cage_lemma(self.at());
        }
        write_u64(heap, self.offset(), ELEMENTS_HEADER + 8 * index as usize, value);
        proof {
            let block = before[self.at()].put_u64(8 + 8 * index, value);
            assert(heap@ =~= before.insert(self.at(), heap@[self.at()]));
            lemma_other_blocks_do_not_matter(before, self.at(), block);
        }
    }

    /// One past the highest index that holds a value, or `None` when there is none.
    ///
    /// A scan, because there is no length in the header and this is what the absence of one costs.
    #[must_use]
    pub fn used(self, cage: &Cage) -> (used: Option<u32>)
        requires
            cage.laid_out(),
            self.names_in(cage@),
        ensures
            used is None <==> forall|i: int| #[trigger]
                element(cage@, self.at(), i) == HOLE || element(cage@, self.at(), i) == NAMED,
            used matches Some(end) ==> {
                &&& 0 < end <= elements_capacity(cage@, self.at())
                &&& element(cage@, self.at(), end - 1) > NAMED
                &&& forall|i: int|
                    end <= i ==> #[trigger] element(cage@, self.at(), i) == HOLE || element(
                        cage@,
                        self.at(),
                        i,
                    ) == NAMED
            },
    {
        let mut end: u32 = self.capacity(cage);
        while end > 0
            invariant
                cage.laid_out(),
                self.names_in(cage@),
                end <= elements_capacity(cage@, self.at()),
                forall|i: int|
                    end <= i ==> #[trigger] element(cage@, self.at(), i) == HOLE || element(
                        cage@,
                        self.at(),
                        i,
                    ) == NAMED,
            decreases end,
        {
            if is_value(self.value_at(cage, end - 1)) {
                assert(element(cage@, self.at(), end - 1) > NAMED);
                return Some(end);
            }
            end = end - 1;
        }
        assert forall|i: int| #[trigger]
            element(cage@, self.at(), i) == HOLE || element(cage@, self.at(), i) == NAMED by {
            if i < 0 {
                assert(element(cage@, self.at(), i) == HOLE);
            }
        }
        None
    }

    /// The slot this array lives at, for putting it in an object's header word.
    #[must_use]
    pub fn slot(self) -> (slot: Slot)
        ensures
            slot == self.slotted(),
    {
        self.0
    }

    /// Read an elements array back out of a slot, or `None` if the slot is not a pointer.
    ///
    /// A zero in an object's elements word is not a pointer, which is what makes "this object has no
    /// indexed properties" the state a freshly allocated object is already in.
    #[must_use]
    pub fn from_slot(slot: Slot) -> (elements: Option<ElementsRef>)
        ensures
            elements is Some <==> slot.points(),
            elements matches Some(found) ==> found.slotted() == slot,
    {
        if slot.is_pointer() {
            Some(ElementsRef(slot))
        } else {
            None
        }
    }

    /// How large an array has to be to hold `index`, or `None` if it is not worth building.
    ///
    /// Doubling, so that a loop appending one element at a time allocates a logarithmic number of
    /// times rather than a linear one, and never smaller than the index needs.
    #[must_use]
    pub fn grown_for(capacity: u32, index: u32) -> (size: Option<u32>)
        ensures
            size == grown_size(capacity, index),
    {
        if index.saturating_sub(capacity) > MAX_GAP {
            return None;
        }
        let wanted: u32 = match index.checked_add(1) {
            Some(wanted) => wanted,
            None => {
                return None;
            },
        };
        let doubled: u64 = 2 * capacity as u64;
        let mut size: u32 = if doubled <= u32::MAX as u64 {
            doubled as u32
        } else {
            u32::MAX
        };
        if size < wanted {
            size = wanted;
        }
        if size < FIRST_ELEMENTS {
            size = FIRST_ELEMENTS;
        }
        Some(size)
    }

    fn offset(self) -> (offset: u32)
        requires
            self.slotted().points(),
        ensures
            offset == self.at(),
    {
        self.0.to_bits() - 1
    }
}

/// An array that was grown to hold an index holds it, is no smaller than it was, and is never more
/// than the gap away from twice what it was.
pub proof fn law_a_grown_array_holds_the_index(capacity: u32, index: u32)
    ensures
        grown_size(capacity, index) matches Some(size) ==> index < size && capacity <= size && size
            >= FIRST_ELEMENTS && (size <= 2 * capacity || size <= capacity + MAX_GAP + 1 || size
            == FIRST_ELEMENTS),
        grown_size(capacity, index) is None <==> index > capacity + MAX_GAP || index == u32::MAX,
{
}

/// An array that has to grow becomes twice as large, or as large as the index needs, or as large as
/// the first array, whichever is most. One that the index is too far past the end of does not grow.
pub proof fn law_an_array_grows_to_the_largest_of_three(capacity: u32, index: u32)
    ensures
        grown_size(capacity, index) matches Some(size) ==> {
            let doubled = if 2 * capacity <= u32::MAX {
                2 * capacity
            } else {
                u32::MAX as int
            };
            &&& size >= doubled
            &&& size >= index + 1
            &&& size >= FIRST_ELEMENTS
            &&& size == doubled || size == index + 1 || size == FIRST_ELEMENTS
        },
        grown_size(capacity, index) is None <==> index - capacity > MAX_GAP || index == u32::MAX,
{
}

/// Nothing is stored past the end of an array: reading there finds a hole.
pub proof fn law_past_the_end_is_a_hole(blocks: Blocks, offset: int, index: int)
    ensures
        index < 0 || index >= elements_capacity(blocks, offset) ==> element(blocks, offset, index)
            == HOLE,
        is_elements(blocks, offset) && 0 <= index < elements_capacity(blocks, offset) ==> element(
            blocks,
            offset,
            index,
        ) == u64_at(blocks[offset].bytes, 8 + 8 * index),
{
}

} // verus!
