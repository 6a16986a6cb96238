//! An ordinary object: a shape that says which properties it has, and the values behind them.
//!
//! This is what a program makes with `{}` and what every host object in the runtime is.
//!
//! # The layout
//!
//! ```text
//! [shape][properties][inline capacity][padding][inline slot 0][inline slot 1]...
//! ```
//!
//! The shape is a pointer, and it is in the first word every object in the cage has, which is what
//! tells an ordinary object apart from a string or a closure without a tag of its own.
//!
//! The values go in the object itself for as long as there is room. An object that grows past the
//! room it was built with puts the rest in a properties array off to the side and keeps the ones that
//! already fit where they are.
//!
//! # Why the inline capacity is in the object and not in the shape
//!
//! The same shape is reached both by a literal that was built with room for its properties and by an
//! empty object that had them added one at a time, and those two have different amounts of room.

use vstd::prelude::*;

use crate::gc::block::{group_words, u32_at, u64_at, Block, Blocks};
use crate::gc::bump::{rounded, BumpHeap, ObjectKind};
use crate::gc::cage::{law_a_slot_is_its_text, Cage, Slot, CAGE_SIZE};
use crate::gc::object::{
    allocate_slot, moved_on, objects_hold_together, read_u32, read_u64, took, write_kind,
    write_u32, write_u64, HeapKind,
};
use crate::gc::shape::{
    has_transition, is_shape, is_transition, last_index, law_a_tree_shares_one_prototype,
    law_the_same_names_in_the_same_order_reach_one_shape, lemma_count_is_the_number_of_names,
    lemma_names_are_kept, lemma_node, names_of, prototype_of, root_of, shapes_hold,
    shapes_kept, ShapeRef,
};
use crate::gc::string::StringRef;
use crate::text::lemma_ends_agree;

verus! {

/// Bytes before the first inline value. Twelve of header rounded up, because a value is eight bytes
/// and an unaligned one costs more on every read than the four bytes of padding cost once.
pub const HEADER_SIZE: usize = 16;

/// Bytes per value, which is a whole boxed value rather than a compressed slot.
pub const VALUE_SIZE: usize = 8;

/// Bytes of header on the overflow array: the kind tag and the capacity.
pub const PROPERTIES_HEADER: usize = 8;

/// How many values the first overflow array holds.
///
/// Four rather than one, because an object that has outgrown its inline room is an object being built
/// by assignment, and those add more than one property almost every time.
pub const FIRST_OVERFLOW: u32 = 4;

/// Whether there is an overflow array at an offset.
pub open spec fn is_array(blocks: Blocks, offset: int) -> bool {
    &&& blocks.contains_key(offset)
    &&& 0 <= offset <= u32::MAX
    &&& offset % 8 == 0
    &&& blocks[offset].kind == ObjectKind::Properties
    &&& blocks[offset].bytes.len() >= 8
    &&& u32_at(blocks[offset].bytes, 0) == 10
    &&& 8 + 8 * capacity_of(blocks, offset) <= blocks[offset].bytes.len()
}

/// How many values the overflow array at `offset` has room for.
pub open spec fn capacity_of(blocks: Blocks, offset: int) -> u32 {
    u32_at(blocks[offset].bytes, 4)
}

/// The shape of the object at `offset`, as a slot.
pub open spec fn shape_of(blocks: Blocks, offset: int) -> Slot {
    Slot(u32_at(blocks[offset].bytes, 0))
}

/// The overflow array of the object at `offset`, as a slot.
pub open spec fn array_of(blocks: Blocks, offset: int) -> Slot {
    Slot(u32_at(blocks[offset].bytes, 4))
}

/// How many values fit inside the object at `offset`.
pub open spec fn inline_of(blocks: Blocks, offset: int) -> u32 {
    u32_at(blocks[offset].bytes, 8)
}

/// Whether there is an ordinary object at an offset.
pub open spec fn is_object(blocks: Blocks, offset: int) -> bool {
    &&& blocks.contains_key(offset)
    &&& 0 <= offset <= u32::MAX
    &&& offset % 8 == 0
    &&& blocks[offset].kind == ObjectKind::Object
    &&& blocks[offset].bytes.len() >= 16
    &&& shape_of(blocks, offset).points()
}

/// Whether an object names a shape, has the inline room it says it has, and names an overflow array
/// if it names anything.
pub open spec fn object_fits(blocks: Blocks, offset: int) -> bool {
    &&& is_shape(blocks, shape_of(blocks, offset).target())
    &&& 16 + 8 * inline_of(blocks, offset) <= blocks[offset].bytes.len()
    &&& array_of(blocks, offset).points() ==> is_array(blocks, array_of(blocks, offset).target())
}

/// Whether every object fits and no two of them share an overflow array.
pub open spec fn objects_hold(blocks: Blocks) -> bool {
    &&& forall|offset: int| #[trigger] is_object(blocks, offset) ==> object_fits(blocks, offset)
    &&& forall|left: int, right: int|
        #![trigger is_object(blocks, left), is_object(blocks, right)]
        is_object(blocks, left) && is_object(blocks, right) && left != right && array_of(
            blocks,
            left,
        ).points() && array_of(blocks, right).points() ==> array_of(blocks, left) != array_of(
            blocks,
            right,
        )
}

/// How many values the object at `offset` has somewhere to put.
pub open spec fn room_of(blocks: Blocks, offset: int) -> int {
    inline_of(blocks, offset) + (if array_of(blocks, offset).points() {
        capacity_of(blocks, array_of(blocks, offset).target()) as int
    } else {
        0
    })
}

/// Whether the object at `offset` has somewhere to put the value of every name it has, which one
/// built with a root shape always has.
pub open spec fn is_filled(blocks: Blocks, offset: int) -> bool {
    object_names(blocks, offset).len() <= room_of(blocks, offset)
}

/// The value number `index` of the object at `offset`.
pub open spec fn value_of(blocks: Blocks, offset: int, index: int) -> u64 {
    if index < inline_of(blocks, offset) {
        u64_at(blocks[offset].bytes, 16 + 8 * index)
    } else {
        u64_at(
            blocks[array_of(blocks, offset).target()].bytes,
            8 + 8 * (index - inline_of(blocks, offset)),
        )
    }
}

/// The names of the object at `offset`, in the order they were added, as slots.
pub open spec fn object_names(blocks: Blocks, offset: int) -> Seq<Slot> {
    names_of(blocks, shape_of(blocks, offset).target())
}

/// The value the object at `offset` has under a name, if it has one.
pub open spec fn property(blocks: Blocks, offset: int, name: Slot) -> Option<u64> {
    match last_index(object_names(blocks, offset), name) {
        Some(index) if index < room_of(blocks, offset) => Some(value_of(blocks, offset, index)),
        _ => None,
    }
}

/// How large an overflow array becomes to hold `wanted` values: twice what it was, and no smaller
/// than the first one.
pub open spec fn grown_capacity(capacity: int, wanted: int) -> int {
    if 2 * capacity >= wanted && 2 * capacity >= 4 {
        2 * capacity
    } else if wanted >= 4 {
        wanted
    } else {
        4
    }
}

/// How many bytes have to be allocated before the object at `offset` can hold value number `index`.
pub open spec fn growth_bytes(blocks: Blocks, offset: int, index: int) -> int {
    if index < room_of(blocks, offset) {
        0
    } else {
        8 + 8 * grown_capacity(
            room_of(blocks, offset) - inline_of(blocks, offset),
            index - inline_of(blocks, offset) + 1,
        )
    }
}

/// Whether an object is as it was: the same shape, the same room and the same values.
pub open spec fn object_kept(before: Blocks, after: Blocks, offset: int) -> bool {
    &&& is_object(after, offset)
    &&& after[offset] == before[offset]
    &&& array_of(before, offset).points() ==> after[array_of(before, offset).target()]
        == before[array_of(before, offset).target()]
}

/// Whether every object but one is as it was.
pub open spec fn others_kept(before: Blocks, after: Blocks, changed: int) -> bool {
    forall|offset: int| #[trigger]
        is_object(before, offset) && offset != changed ==> object_kept(before, after, offset)
}

/// Whether every block of a heap is as it was but for those an object keeps its own values in: the
/// object and its overflow array.
pub open spec fn only_touches(before: Blocks, after: Blocks, offset: int) -> bool {
    forall|other: int|
        before.contains_key(other) && other != offset && !(array_of(before, offset).points() && other
            == array_of(before, offset).target()) ==> after.contains_key(other)
            && #[trigger] after[other] == before[other]
}

/// An object with properties on it.
#[derive(Clone, Copy, Debug, PartialEq, Eq, Hash, Structural)]
pub struct ObjectRef(Slot);

impl ObjectRef {
    /// The slot behind the reference.
    pub closed spec fn slotted(self) -> Slot {
        self.0
    }

    /// How the reference is written for a person: what it names and where that is.
    pub open spec fn text(self) -> Seq<char> {
        "object@"@ + self.slotted().text()
    }

    /// The reference for a person to read, which is enough to tell two of them apart.
    pub fn to_string(&self) -> (out: String)
        ensures
            out@ == self.text(),
    {
        let mut out = String::new();
        out.append("object@");
        out.append(self.0.to_string().as_str());
        assert(out@ =~= self.text());
        out
    }

    /// A slot names one reference: two with the same slot, pointing at one offset, or written alike are
    /// the same.
    pub proof fn law_a_slot_names_one_reference(self, other: ObjectRef)
        ensures
            self.slotted() == other.slotted() <==> self == other,
            self.slotted().points() && other.slotted().points() && self.slotted().target()
                == other.slotted().target() ==> self == other,
            self.text() == other.text() <==> self == other,
            self.text() == "object@"@ + self.slotted().text(),
    {
        lemma_ends_agree("object@"@, self.slotted().text(), other.slotted().text());
        law_a_slot_is_its_text(self.slotted(), other.slotted());
    }

    /// The offset the reference names.
    pub open spec fn at(self) -> int {
        self.slotted().target()
    }

    /// Whether the reference names an object in a heap.
    pub open spec fn names_in(self, blocks: Blocks) -> bool {
        self.slotted().points() && is_object(blocks, self.at())
    }

    /// Build an object with `shape`, with room inside it for `inline` values.
    ///
    /// The shape is normally a root, and `inline` is how many properties the caller is about to add.
    /// An object built with a shape that already has properties has no values in it, so the caller
    /// has to write them before anything reads them.
    ///
    /// Returns `None` if the heap is full or the object would be larger than the cage.
    #[must_use]
    pub fn new(heap: &mut BumpHeap, shape: ShapeRef, inline: u32) -> (object: Option<ObjectRef>)
        requires
            old(heap).wf(),
            shape.names_in(old(heap)@),
        ensures
            final(heap).wf(),
            object is Some <==> old(heap).has_room(16 + 8 * inline),
            object is None ==> *final(heap) == *old(heap),
            object matches Some(made) ==> {
                &&& made.at() == old(heap).next()
                &&& made.names_in(final(heap)@)
                &&& !old(heap)@.contains_key(made.at())
                &&& final(heap)@ == old(heap)@.insert(made.at(), final(heap)@[made.at()])
                &&& moved_on(*old(heap), *final(heap), ObjectKind::Object, 16 + 8 * inline)
                &&& shape_of(final(heap)@, made.at()) == shape.slotted()
                &&& inline_of(final(heap)@, made.at()) == inline
                &&& !array_of(final(heap)@, made.at()).points()
                &&& room_of(final(heap)@, made.at()) == inline
                &&& object_names(final(heap)@, made.at()) == names_of(old(heap)@, shape.at())
                &&& shapes_kept(old(heap)@, final(heap)@)
                &&& others_kept(old(heap)@, final(heap)@, made.at())
            },
    {
        broadcast use group_words;

        let ghost before = *heap;
        proof {
            heap.cage_lemma(shape.at());
        }
        let bytes: usize = HEADER_SIZE + VALUE_SIZE * inline as usize;
        let slot = match allocate_slot(heap, bytes, ObjectKind::Object) {
            Some(slot) => slot,
            None => {
                return None;
            },
        };
        let offset: u32 = slot.to_bits() - 1;
        write_u32(heap, offset, 0, shape.slot().to_bits());
        write_u32(heap, offset, 8, inline);
        let object = ObjectRef(slot);
        proof {
            let block = Block::fresh(ObjectKind::Object, bytes as nat).put_u32(
                0,
                shape.slotted().0,
            ).put_u32(8, inline);
            assert(heap@ =~= before@.insert(object.at(), block));
            assert(u32_at(block.bytes, 0) == shape.slotted().0);
            assert(u32_at(block.bytes, 4) == 0);
            assert(u32_at(block.bytes, 8) == inline);
            lemma_an_object_block_changes(before@, object.at(), block);
            lemma_names_are_kept(before@, heap@, shape.at());
        }
        Some(object)
    }

    /// This object's shape, which is what says where its properties are.
    #[must_use]
    pub fn shape(self, cage: &Cage) -> (shape: ShapeRef)
        requires
            cage.laid_out(),
            self.names_in(cage@),
        ensures
            shape.slotted() == shape_of(cage@, self.at()),
            objects_hold(cage@) ==> shape.names_in(cage@),
    {
        ShapeRef::from_slot(Slot::from_bits(self.field(cage, 0))).unwrap()
    }

    /// How many properties this object has.
    #[must_use]
    pub fn len(self, cage: &Cage) -> (count: u32)
        requires
            cage.laid_out(),
            objects_hold_together(cage@),
            self.names_in(cage@),
        ensures
            count == object_names(cage@, self.at()).len(),
    {
        self.shape(cage).count(cage)
    }

    /// Whether this object has no properties at all.
    #[must_use]
    pub fn is_empty(self, cage: &Cage) -> (empty: bool)
        requires
            cage.laid_out(),
            objects_hold_together(cage@),
            self.names_in(cage@),
        ensures
            empty == (object_names(cage@, self.at()).len() == 0),
    {
        self.len(cage) == 0
    }

    /// The value stored under `name`, or `None` if this object has no such property.
    #[must_use]
    pub fn get(self, cage: &Cage, name: StringRef) -> (value: Option<u64>)
        requires
            cage.laid_out(),
            objects_hold_together(cage@),
            self.names_in(cage@),
        ensures
            value == property(cage@, self.at(), name.slotted()),
    {
        proof {
            lemma_count_is_the_number_of_names(cage@, shape_of(cage@, self.at()).target());
        }
        match self.shape(cage).index_of(cage, name) {
            Some(index) => self.value_at(cage, index),
            None => None,
        }
    }

    /// Store `value` under `name`, adding the property if the object does not have it.
    ///
    /// This is where an object grows a shape. Adding a property takes a transition, and taking the
    /// same transition from the same shape twice reaches the same node.
    ///
    /// Both allocations happen before anything about the object changes, so an object whose heap ran
    /// out is the object it was rather than one with a shape claiming a property it has no room for.
    ///
    /// A property that the object already has needs room to be in, which every object has for every
    /// property that was stored in it.
    ///
    /// Returns `None` if the heap is full.
    #[must_use]
    pub fn set(self, heap: &mut BumpHeap, name: StringRef, value: u64) -> (outcome: Option<()>)
        requires
            old(heap).wf(),
            self.names_in(old(heap)@),
            name.slotted().points(),
            is_filled(old(heap)@, self.at()) || (last_index(
                object_names(old(heap)@, self.at()),
                name.slotted(),
            ) matches Some(index) ==> index < room_of(old(heap)@, self.at())),
        ensures
            final(heap).wf(),
            self.names_in(final(heap)@),
            shapes_kept(old(heap)@, final(heap)@),
            others_kept(old(heap)@, final(heap)@, self.at()),
            is_filled(old(heap)@, self.at()) ==> is_filled(final(heap)@, self.at()),
            forall|other: int|
                is_object(old(heap)@, other) && other != self.at() ==> (#[trigger] is_filled(
                    final(heap)@,
                    other,
                ) <==> is_filled(old(heap)@, other)),
            forall|other: int, key: Slot|
                is_object(old(heap)@, other) && other != self.at() ==> #[trigger] property(
                    final(heap)@,
                    other,
                    key,
                ) == property(old(heap)@, other, key),
            ({
                let names = object_names(old(heap)@, self.at());
                let shape = shape_of(old(heap)@, self.at()).target();
                let known = last_index(names, name.slotted()) is Some;
                let shared = has_transition(old(heap)@, shape, name.slotted());
                let node = if shared {
                    0
                } else {
                    rounded(28)
                };
                let growth = rounded(growth_bytes(old(heap)@, self.at(), names.len() as int));
                &&& outcome is Some <==> known || ((shared || names.len() < u32::MAX) && old(heap).next()
                    + node + growth <= CAGE_SIZE)
                &&& known ==> shape_of(final(heap)@, self.at()) == shape_of(old(heap)@, self.at())
                    && room_of(final(heap)@, self.at()) == room_of(old(heap)@, self.at())
                    && final(heap)@.dom() == old(heap)@.dom() && final(heap).stays(*old(heap))
                &&& outcome is Some && !known ==> is_transition(
                    final(heap)@,
                    shape,
                    name.slotted(),
                    shape_of(final(heap)@, self.at()).target(),
                )
                &&& outcome is Some && !known ==> took_both(
                    *old(heap),
                    *final(heap),
                    if shared {
                        0
                    } else {
                        28
                    },
                    growth_bytes(old(heap)@, self.at(), names.len() as int),
                )
                &&& outcome is Some && !known ==> final(heap).next() == old(heap).next() + node
                    + growth
                &&& outcome is None ==> object_kept(old(heap)@, final(heap)@, self.at())
                &&& outcome is None ==> took(
                    *old(heap),
                    *final(heap),
                    ObjectKind::Shape,
                    if !shared && names.len() < u32::MAX && old(heap).has_room(28) {
                        28
                    } else {
                        0
                    },
                )
                &&& root_of(final(heap)@, shape_of(final(heap)@, self.at()).target()) == root_of(
                    old(heap)@,
                    shape,
                )
                &&& forall|other: int| #[trigger]
                    old(heap)@.contains_key(other) && other != self.at() && other != shape && !(
                    array_of(old(heap)@, self.at()).points() && other == array_of(
                        old(heap)@,
                        self.at(),
                    ).target()) ==> final(heap)@.contains_key(other) && final(heap)@[other]
                        == old(heap)@[other]
                &&& outcome is Some ==> object_names(final(heap)@, self.at()) == if known {
                    names
                } else {
                    names.push(name.slotted())
                }
                &&& outcome is Some ==> property(final(heap)@, self.at(), name.slotted()) == Some(
                    value,
                )
                &&& outcome is Some ==> forall|other: Slot|
                    other != name.slotted() && property(old(heap)@, self.at(), other) is Some
                        ==> #[trigger] property(final(heap)@, self.at(), other) == property(
                        old(heap)@,
                        self.at(),
                        other,
                    )
                &&& outcome is Some ==> forall|other: Slot|
                    other != name.slotted() && last_index(names, other) is None
                        ==> #[trigger] property(final(heap)@, self.at(), other) is None
            }),
    {
        let ghost before = *heap;
        let ghost names = object_names(before@, self.at());
        let shape = self.shape(heap.cage());
        proof {
            lemma_count_is_the_number_of_names(heap@, shape.at());
            lemma_last_index(names, name.slotted());
        }
        if let Some(index) = shape.index_of(heap.cage(), name) {
            self.write(heap, index, value);
            proof {
                lemma_properties_after_a_write(before@, heap@, self.at(), index as int, name.slotted());
                lemma_names_are_kept(before@, heap@, shape.at());
                lemma_others_keep_their_properties(before@, heap@, self.at());
            }
            return Some(());
        }
        let index: u32 = shape.count(heap.cage());
        let grown = match shape.transition(heap, name) {
            Some(grown) => grown,
            None => {
                return None;
            },
        };
        let ghost reshaped = *heap;
        proof {
            lemma_objects_outlive_a_transition(before@, heap@, shape.at(), self.at());
            lemma_count_is_the_number_of_names(heap@, grown.at());
            lemma_node(heap@, grown.at());
            assert(root_of(heap@, grown.at()) == root_of(heap@, shape.at()));
            lemma_names_are_kept(before@, heap@, shape.at());
        }
        match self.reserve(heap, index) {
            Some(()) => {},
            None => {
                proof {
                    lemma_others_keep_their_properties(before@, heap@, self.at());
                    lemma_a_kept_object_keeps_its_properties(
                        before@,
                        heap@,
                        self.at(),
                        name.slotted(),
                    );
                }
                return None;
            },
        }
        let ghost roomy = *heap;
        self.set_shape(heap, grown);
        let ghost shaped = *heap;
        self.write(heap, index, value);
        proof {
            lemma_names_are_kept(reshaped@, heap@, grown.at());
            lemma_names_are_kept(reshaped@, heap@, grown.at());
            assert(took(
                before,
                reshaped,
                ObjectKind::Shape,
                if has_transition(before@, shape.at(), name.slotted()) {
                    0
                } else {
                    28
                },
            ));
            lemma_properties_after_growth(
                before@,
                reshaped@,
                roomy@,
                shaped@,
                heap@,
                self.at(),
                index as int,
                name.slotted(),
            );
            lemma_others_keep_their_properties(before@, heap@, self.at());
            lemma_last_index(names.push(name.slotted()), name.slotted());
            assert(property(heap@, self.at(), name.slotted()) is Some);
            let bytes = growth_bytes(before@, self.at(), index as int);
            assert(growth_bytes(reshaped@, self.at(), index as int) == bytes);
            assert(took(reshaped, *heap, ObjectKind::Properties, bytes));
            assert(took_both(
                before,
                *heap,
                if has_transition(before@, shape.at(), name.slotted()) {
                    0
                } else {
                    28
                },
                bytes,
            ));
            assert(root_of(heap@, grown.at()) == root_of(before@, shape.at()));
            assert(heap.next() == reshaped.next() + rounded(bytes));
            assert(is_transition(heap@, shape.at(), name.slotted(), grown.at()));
            assert forall|other: int| #[trigger]
                before@.contains_key(other) && other != self.at() && other != shape.at() && !(array_of(
                    before@,
                    self.at(),
                ).points() && other == array_of(before@, self.at()).target()) implies heap@.contains_key(
                other,
            ) && heap@[other] == before@[other] by {
                assert(reshaped@[other] == before@[other]);
                assert(roomy@[other] == reshaped@[other]);
                assert(shaped@[other] == roomy@[other]);
                assert(heap@[other] == shaped@[other]);
            }
        }
        Some(())
    }

    /// Every name on this object, in the order the properties were added.
    ///
    /// Together with [`ObjectRef::value_at`] this is how printing walks an object, which wants
    /// insertion order rather than a name to look up.
    #[must_use]
    pub fn names(self, cage: &Cage) -> (names: Vec<StringRef>)
        requires
            cage.laid_out(),
            objects_hold_together(cage@),
            self.names_in(cage@),
        ensures
            names@.len() == object_names(cage@, self.at()).len(),
            forall|i: int|
                0 <= i < names@.len() ==> (#[trigger] names@[i]).slotted() == object_names(
                    cage@,
                    self.at(),
                )[i],
    {
        self.shape(cage).names(cage)
    }

    /// The value of the property at `index`, or `None` if the index is past the end.
    #[must_use]
    pub fn value_at(self, cage: &Cage, index: u32) -> (value: Option<u64>)
        requires
            cage.laid_out(),
            objects_hold_together(cage@),
            self.names_in(cage@),
        ensures
            value == if index < object_names(cage@, self.at()).len() && index < room_of(
                cage@,
                self.at(),
            ) {
                Some(value_of(cage@, self.at(), index as int))
            } else {
                None
            },
    {
        if index >= self.len(cage) {
            return None;
        }
        proof {
            cage.lemma_allocations_are_inside(self.at());
            cage.lemma_addresses_are_wide();
        }
        let inline: u32 = self.inline(cage);
        if index < inline {
            return Some(read_u64(cage, self.offset(), HEADER_SIZE + VALUE_SIZE * index as usize));
        }
        match self.properties(cage) {
            Some(array) => {
                let at: u32 = index - inline;
                if at >= array.capacity(cage) {
                    return None;
                }
                Some(array.value_at(cage, at))
            },
            None => None,
        }
    }

    /// The slot this object lives at.
    #[must_use]
    pub fn slot(self) -> (slot: Slot)
        ensures
            slot == self.slotted(),
    {
        self.0
    }

    /// Read an object back out of a slot, or `None` if the slot is not a pointer.
    ///
    /// The kind is not rechecked here, because the caller reached this through a slot an object was
    /// written into.
    #[must_use]
    pub fn from_slot(slot: Slot) -> (object: Option<ObjectRef>)
        ensures
            object is Some <==> slot.points(),
            object matches Some(found) ==> found.slotted() == slot,
    {
        if slot.is_pointer() {
            Some(ObjectRef(slot))
        } else {
            None
        }
    }

    /// How many values fit inside the object itself.
    fn inline(self, cage: &Cage) -> (inline: u32)
        requires
            cage.laid_out(),
            self.names_in(cage@),
        ensures
            inline == inline_of(cage@, self.at()),
    {
        self.field(cage, 8)
    }

    /// The overflow array, if this object has outgrown the room it was built with.
    fn properties(self, cage: &Cage) -> (array: Option<Properties>)
        requires
            cage.laid_out(),
            objects_hold(cage@),
            self.names_in(cage@),
        ensures
            array is Some <==> array_of(cage@, self.at()).points(),
            array matches Some(found) ==> found.slotted() == array_of(cage@, self.at())
                && found.names_in(cage@),
    {
        Properties::from_slot(Slot::from_bits(self.field(cage, 4)))
    }

    /// Make sure there is somewhere to put the value of the property at `index`.
    ///
    /// Nothing to do while the object still has room. Past that it needs an overflow array big
    /// enough, which means allocating the first one or replacing a full one with a larger copy.
    /// Doubling rather than growing by one, because an object that has added one property by
    /// assignment is an object that is about to add another.
    fn reserve(self, heap: &mut BumpHeap, index: u32) -> (outcome: Option<()>)
        requires
            old(heap).wf(),
            self.names_in(old(heap)@),
            index < u32::MAX,
        ensures
            final(heap).wf(),
            outcome is Some <==> old(heap).next() + rounded(
                growth_bytes(old(heap)@, self.at(), index as int),
            ) <= CAGE_SIZE,
            outcome is None ==> *final(heap) == *old(heap),
            outcome is Some ==> grew_room(old(heap)@, final(heap)@, self.at(), index as int),
            outcome is Some ==> took(
                *old(heap),
                *final(heap),
                ObjectKind::Properties,
                growth_bytes(old(heap)@, self.at(), index as int),
            ),
    {
        proof {
            heap.cage_lemma(self.at());
            assert(object_fits(heap@, self.at()));
        }
        let inline: u32 = self.inline(heap.cage());
        if index < inline {
            return Some(());
        }
        let wanted: u32 = index - inline + 1;
        let existing = self.properties(heap.cage());
        let capacity: u32 = match existing {
            Some(array) => array.capacity(heap.cage()),
            None => 0,
        };
        if wanted <= capacity {
            return Some(());
        }
        proof {
            if array_of(heap@, self.at()).points() {
                heap.cage_lemma(array_of(heap@, self.at()).target());
            }
        }
        let mut grown: u32 = capacity * 2;
        if grown < FIRST_OVERFLOW {
            grown = FIRST_OVERFLOW;
        }
        if grown < wanted {
            grown = wanted;
        }
        let ghost before = *heap;
        let array = match Properties::new(heap, grown) {
            Some(array) => array,
            None => {
                return None;
            },
        };
        if let Some(existing) = existing {
            array.copy_from(heap, existing, capacity);
        }
        let ghost copied = *heap;
        proof {
            assert(copied@ =~= before@.insert(array.at(), copied@[array.at()]));
            assert forall|other: int| #[trigger] is_object(copied@, other) implies array_of(
                copied@,
                other,
            ) != array.slotted() by {
                assert(is_object(before@, other));
                assert(object_fits(before@, other));
            }
        }
        self.set_array(heap, array);
        proof {
            lemma_room_has_grown(before@, copied@, heap@, self.at(), array.at(), index as int);
        }
        Some(())
    }

    /// Write the value of the property at `index`, which there has to be room for.
    fn write(self, heap: &mut BumpHeap, index: u32, value: u64)
        requires
            old(heap).wf(),
            self.names_in(old(heap)@),
            index < room_of(old(heap)@, self.at()),
        ensures
            final(heap).wf(),
            final(heap).stays(*old(heap)),
            wrote_value(old(heap)@, final(heap)@, self.at(), index as int, value),
    {
        broadcast use group_words;

        let ghost before = heap@;
        proof {
            heap.cage_lemma(self.at());
            assert(object_fits(heap@, self.at()));
        }
        let inline: u32 = self.inline(heap.cage());
        if index < inline {
            write_u64(heap, self.offset(), HEADER_SIZE + VALUE_SIZE * index as usize, value);
            proof {
                let block = before[self.at()].put_u64(16 + 8 * index, value);
                lemma_an_object_block_changes(before, self.at(), block);
                assert(heap@.dom() =~= before.dom());
            }
            return ;
        }
        let array = self.properties(heap.cage()).unwrap();
        array.set(heap, index - inline, value);
        assert(heap@.dom() =~= before.dom());
    }

    /// Write the first word.
    fn set_shape(self, heap: &mut BumpHeap, shape: ShapeRef)
        requires
            old(heap).wf(),
            self.names_in(old(heap)@),
            shape.names_in(old(heap)@),
        ensures
            final(heap).wf(),
            final(heap).stays(*old(heap)),
            final(heap)@ == old(heap)@.insert(self.at(), final(heap)@[self.at()]),
            self.names_in(final(heap)@),
            shape_of(final(heap)@, self.at()) == shape.slotted(),
            array_of(final(heap)@, self.at()) == array_of(old(heap)@, self.at()),
            inline_of(final(heap)@, self.at()) == inline_of(old(heap)@, self.at()),
            forall|i: int|
                0 <= i < inline_of(old(heap)@, self.at()) ==> #[trigger] u64_at(
                    final(heap)@[self.at()].bytes,
                    16 + 8 * i,
                ) == u64_at(old(heap)@[self.at()].bytes, 16 + 8 * i),
            shapes_kept(old(heap)@, final(heap)@),
            others_kept(old(heap)@, final(heap)@, self.at()),
    {
        broadcast use group_words;

        let ghost before = heap@;
        assert(object_fits(heap@, self.at()));
        write_u32(heap, self.offset(), 0, shape.slot().to_bits());
        proof {
            let block = before[self.at()].put_u32(0, shape.slotted().0);
            assert(heap@ =~= before.insert(self.at(), heap@[self.at()]));
            lemma_an_object_block_changes(before, self.at(), block);
        }
    }

    /// Write the second word.
    fn set_array(self, heap: &mut BumpHeap, array: Properties)
        requires
            old(heap).wf(),
            self.names_in(old(heap)@),
            array.names_in(old(heap)@),
            forall|other: int| #[trigger]
                is_object(old(heap)@, other) ==> array_of(old(heap)@, other) != array.slotted(),
        ensures
            final(heap).wf(),
            final(heap).stays(*old(heap)),
            final(heap)@ == old(heap)@.insert(self.at(), final(heap)@[self.at()]),
            self.names_in(final(heap)@),
            shape_of(final(heap)@, self.at()) == shape_of(old(heap)@, self.at()),
            array_of(final(heap)@, self.at()) == array.slotted(),
            inline_of(final(heap)@, self.at()) == inline_of(old(heap)@, self.at()),
            forall|i: int|
                0 <= i < inline_of(old(heap)@, self.at()) ==> #[trigger] u64_at(
                    final(heap)@[self.at()].bytes,
                    16 + 8 * i,
                ) == u64_at(old(heap)@[self.at()].bytes, 16 + 8 * i),
            shapes_kept(old(heap)@, final(heap)@),
            others_kept(old(heap)@, final(heap)@, self.at()),
    {
        broadcast use group_words;

        let ghost before = heap@;
        assert(object_fits(heap@, self.at()));
        write_u32(heap, self.offset(), 4, array.slot().to_bits());
        proof {
            let block = before[self.at()].put_u32(4, array.slotted().0);
            assert(heap@ =~= before.insert(self.at(), heap@[self.at()]));
            lemma_an_object_block_changes(before, self.at(), block);
        }
    }

    /// One of the three header words, as raw bits.
    fn field(self, cage: &Cage, at: usize) -> (word: u32)
        requires
            cage.laid_out(),
            self.names_in(cage@),
            at <= 12,
        ensures
            word == u32_at(cage@[self.at()].bytes, at as int),
    {
        read_u32(cage, self.offset(), at)
    }

    fn offset(self) -> (offset: u32)
        requires
            self.slotted().points(),
        ensures
            offset == self.at(),
    {
        self.0.to_bits() - 1
    }
}

/// The values of an object that did not fit in the room it was built with.
///
/// A plain array with a capacity, and not a second object model. It has no names in it: which name a
/// slot belongs to is the shape's answer, exactly as it is for the inline slots.
#[derive(Clone, Copy)]
struct Properties(Slot);

impl Properties {
    spec fn slotted(self) -> Slot {
        self.0
    }

    spec fn at(self) -> int {
        self.0.target()
    }

    spec fn names_in(self, blocks: Blocks) -> bool {
        self.0.points() && is_array(blocks, self.at())
    }

    /// Allocate an array with room for `capacity` values.
    fn new(heap: &mut BumpHeap, capacity: u32) -> (array: Option<Properties>)
        requires
            old(heap).wf(),
        ensures
            final(heap).wf(),
            array is Some <==> old(heap).has_room(8 + 8 * capacity),
            array is None ==> *final(heap) == *old(heap),
            array matches Some(made) ==> {
                &&& made.at() == old(heap).next()
                &&& made.names_in(final(heap)@)
                &&& !old(heap)@.contains_key(made.at())
                &&& final(heap)@ == old(heap)@.insert(made.at(), final(heap)@[made.at()])
                &&& capacity_of(final(heap)@, made.at()) == capacity
                &&& moved_on(*old(heap), *final(heap), ObjectKind::Properties, 8 + 8 * capacity)
            },
    {
        broadcast use group_words;

        let ghost before = *heap;
        proof {
            heap.lemma_addresses_are_wide();
        }
        let bytes: usize = PROPERTIES_HEADER + VALUE_SIZE * capacity as usize;
        let slot = match allocate_slot(heap, bytes, ObjectKind::Properties) {
            Some(slot) => slot,
            None => {
                return None;
            },
        };
        let offset: u32 = slot.to_bits() - 1;
        write_kind(heap, offset, HeapKind::Properties);
        write_u32(heap, offset, 4, capacity);
        let array = Properties(slot);
        proof {
            let block = Block::fresh(ObjectKind::Properties, bytes as nat).put_u32(0, 10).put_u32(
                4,
                capacity,
            );
            assert(heap@ =~= before@.insert(array.at(), block));
            lemma_an_array_block_changes(before@, array.at(), block);
        }
        Some(array)
    }

    /// How many values this array has room for.
    fn capacity(self, cage: &Cage) -> (capacity: u32)
        requires
            cage.laid_out(),
            self.names_in(cage@),
        ensures
            capacity == capacity_of(cage@, self.at()),
    {
        read_u32(cage, self.offset(), 4)
    }

    /// The value at `index`, which the caller has checked against the capacity.
    fn value_at(self, cage: &Cage, index: u32) -> (value: u64)
        requires
            cage.laid_out(),
            self.names_in(cage@),
            index < capacity_of(cage@, self.at()),
        ensures
            value == u64_at(cage@[self.at()].bytes, 8 + 8 * index),
    {
        proof {
            cage.lemma_allocations_are_inside(self.at());
            cage.lemma_addresses_are_wide();
        }
        read_u64(cage, self.offset(), PROPERTIES_HEADER + VALUE_SIZE * index as usize)
    }

    /// Write the value at `index`, which the caller has checked against the capacity.
    fn set(self, heap: &mut BumpHeap, index: u32, value: u64)
        requires
            old(heap).wf(),
            self.names_in(old(heap)@),
            index < capacity_of(old(heap)@, self.at()),
        ensures
            final(heap).wf(),
            final(heap).stays(*old(heap)),
            final(heap)@ == old(heap)@.insert(self.at(), final(heap)@[self.at()]),
            self.names_in(final(heap)@),
            capacity_of(final(heap)@, self.at()) == capacity_of(old(heap)@, self.at()),
            forall|i: int|
                0 <= i < capacity_of(old(heap)@, self.at()) ==> #[trigger] u64_at(
                    final(heap)@[self.at()].bytes,
                    8 + 8 * i,
                ) == if i == index {
                    value
                } else {
                    u64_at(old(heap)@[self.at()].bytes, 8 + 8 * i)
                },
    {
        broadcast use group_words;

        let ghost before = heap@;
        proof {
            heap.cage_lemma(self.at());
        }
        write_u64(heap, self.offset(), PROPERTIES_HEADER + VALUE_SIZE * index as usize, value);
        proof {
            let block = before[self.at()].put_u64(8 + 8 * index, value);
            assert(heap@ =~= before.insert(self.at(), heap@[self.at()]));
            lemma_an_array_block_changes(before, self.at(), block);
        }
    }

    /// Copy the first `count` values of another array.
    fn copy_from(self, heap: &mut BumpHeap, source: Properties, count: u32)
        requires
            old(heap).wf(),
            self.names_in(old(heap)@),
            source.names_in(old(heap)@),
            self.at() != source.at(),
            count <= capacity_of(old(heap)@, self.at()),
            count <= capacity_of(old(heap)@, source.at()),
        ensures
            final(heap).wf(),
            final(heap).stays(*old(heap)),
            final(heap)@ == old(heap)@.insert(self.at(), final(heap)@[self.at()]),
            self.names_in(final(heap)@),
            capacity_of(final(heap)@, self.at()) == capacity_of(old(heap)@, self.at()),
            forall|i: int|
                0 <= i < count ==> #[trigger] u64_at(final(heap)@[self.at()].bytes, 8 + 8 * i)
                    == u64_at(old(heap)@[source.at()].bytes, 8 + 8 * i),
    {
        let ghost before = *heap;
        let mut index: u32 = 0;
        assert(heap@ =~= before@.insert(self.at(), heap@[self.at()]));
        while index < count
            invariant
                index <= count,
                heap.wf(),
                heap.stays(before),
                before.wf(),
                heap@ == before@.insert(self.at(), heap@[self.at()]),
                self.names_in(heap@),
                source.names_in(before@),
                self.at() != source.at(),
                capacity_of(heap@, self.at()) == capacity_of(before@, self.at()),
                count <= capacity_of(before@, self.at()),
                count <= capacity_of(before@, source.at()),
                forall|i: int|
                    0 <= i < index ==> #[trigger] u64_at(heap@[self.at()].bytes, 8 + 8 * i)
                        == u64_at(before@[source.at()].bytes, 8 + 8 * i),
            decreases count - index,
        {
            assert(source.names_in(heap@));
            let value: u64 = source.value_at(heap.cage(), index);
            let ghost held = heap@;
            self.set(heap, index, value);
            assert(heap@ =~= before@.insert(self.at(), heap@[self.at()]));
            index = index + 1;
        }
    }

    fn slot(self) -> (slot: Slot)
        ensures
            slot == self.slotted(),
    {
        self.0
    }

    fn from_slot(slot: Slot) -> (array: Option<Properties>)
        ensures
            array is Some <==> slot.points(),
            array matches Some(found) ==> found.slotted() == slot,
    {
        if slot.is_pointer() {
            Some(Properties(slot))
        } else {
            None
        }
    }

    fn offset(self) -> (offset: u32)
        requires
            self.0.points(),
        ensures
            offset == self.at(),
    {
        self.0.to_bits() - 1
    }
}

/// What adding a property does to the allocator itself: it takes a shape and then an overflow array,
/// where no bytes are no allocation.
pub open spec fn took_both(before: BumpHeap, after: BumpHeap, shape: int, array: int) -> bool {
    exists|between: BumpHeap| #[trigger]
        took(before, between, ObjectKind::Shape, shape) && took(
            between,
            after,
            ObjectKind::Properties,
            array,
        )
}

/// What making room for value number `index` does: the room reaches it, and what was there before is
/// still there.
spec fn grew_room(before: Blocks, after: Blocks, offset: int, index: int) -> bool {
    &&& is_object(after, offset)
    &&& shape_of(after, offset) == shape_of(before, offset)
    &&& index < room_of(after, offset)
    &&& room_of(before, offset) <= room_of(after, offset)
    &&& only_touches(before, after, offset)
    &&& array_of(after, offset) == array_of(before, offset) || (array_of(after, offset).points()
        && !before.contains_key(array_of(after, offset).target()))
    &&& forall|i: int|
        0 <= i < room_of(before, offset) ==> #[trigger] value_of(after, offset, i) == value_of(
            before,
            offset,
            i,
        )
    &&& shapes_kept(before, after)
    &&& others_kept(before, after, offset)
}

/// What writing value number `index` does: that value is the new one and every other is as it was.
spec fn wrote_value(before: Blocks, after: Blocks, offset: int, index: int, value: u64) -> bool {
    &&& is_object(after, offset)
    &&& shape_of(after, offset) == shape_of(before, offset)
    &&& room_of(after, offset) == room_of(before, offset)
    &&& value_of(after, offset, index) == value
    &&& only_touches(before, after, offset)
    &&& after.dom() == before.dom()
    &&& forall|i: int|
        0 <= i < room_of(before, offset) && i != index ==> #[trigger] value_of(after, offset, i)
            == value_of(before, offset, i)
    &&& shapes_kept(before, after)
    &&& others_kept(before, after, offset)
}

/// The objects of a heap still fit in one that has no other objects and keeps their arrays and shapes.
pub proof fn lemma_objects_carry_over(before: Blocks, after: Blocks)
    requires
        objects_hold(before),
        shapes_kept(before, after),
        forall|offset: int| #[trigger]
            is_object(after, offset) ==> is_object(before, offset) && after[offset]
                == before[offset],
        forall|offset: int| #[trigger] is_array(before, offset) ==> is_array(after, offset),
    ensures
        objects_hold(after),
{
    assert forall|offset: int| #[trigger] is_object(after, offset) implies object_fits(
        after,
        offset,
    ) by {
        assert(is_object(before, offset));
        assert(object_fits(before, offset));
        assert(is_shape(before, shape_of(before, offset).target()));
        if array_of(before, offset).points() {
            assert(is_array(before, array_of(before, offset).target()));
        }
    }
    assert forall|left: int, right: int|
        #![trigger is_object(after, left), is_object(after, right)]
        is_object(after, left) && is_object(after, right) && left != right && array_of(
            after,
            left,
        ).points() && array_of(after, right).points() implies array_of(after, left) != array_of(
        after,
        right,
    ) by {
        assert(is_object(before, left));
        assert(is_object(before, right));
    }
}

/// An object block can be added or rewritten, as long as it fits and its array is its own.
proof fn lemma_an_object_block_changes(before: Blocks, offset: int, block: Block)
    requires
        objects_hold_together(before),
        !before.contains_key(offset) || is_object(before, offset),
        is_object(before.insert(offset, block), offset),
        is_shape(before, shape_of(before.insert(offset, block), offset).target()),
        16 + 8 * inline_of(before.insert(offset, block), offset) <= block.bytes.len(),
        array_of(before.insert(offset, block), offset).points() ==> is_array(
            before,
            array_of(before.insert(offset, block), offset).target(),
        ) && forall|other: int|
            other != offset && #[trigger] is_object(before, other) ==> array_of(before, other)
                != array_of(before.insert(offset, block), offset),
    ensures
        objects_hold_together(before.insert(offset, block)),
        shapes_kept(before, before.insert(offset, block)),
        others_kept(before, before.insert(offset, block), offset),
{
    let after = before.insert(offset, block);
    crate::gc::object::lemma_no_shape_joins(before, offset, block);
    assert forall|other: int| #[trigger] is_object(after, other) implies object_fits(
        after,
        other,
    ) by {
        if other != offset {
            assert(is_object(before, other));
            assert(object_fits(before, other));
            assert(is_shape(before, shape_of(before, other).target()));
        } else {
            assert(is_shape(before, shape_of(after, offset).target()));
        }
    }
    assert forall|left: int, right: int|
        #![trigger is_object(after, left), is_object(after, right)]
        is_object(after, left) && is_object(after, right) && left != right && array_of(
            after,
            left,
        ).points() && array_of(after, right).points() implies array_of(after, left) != array_of(
        after,
        right,
    ) by {
        if left != offset {
            assert(is_object(before, left));
        }
        if right != offset {
            assert(is_object(before, right));
        }
    }
    assert forall|other: int| #[trigger] is_object(before, other) && other != offset implies
        object_kept(before, after, other) by {
        assert(object_fits(before, other));
    }
}

/// An overflow array can be added or rewritten.
proof fn lemma_an_array_block_changes(before: Blocks, offset: int, block: Block)
    requires
        objects_hold_together(before),
        !before.contains_key(offset) || is_array(before, offset),
        is_array(before.insert(offset, block), offset),
    ensures
        objects_hold_together(before.insert(offset, block)),
        shapes_kept(before, before.insert(offset, block)),
{
    let after = before.insert(offset, block);
    crate::gc::object::lemma_no_shape_joins(before, offset, block);
    assert forall|other: int| #[trigger] is_object(after, other) implies is_object(before, other)
        && after[other] == before[other] by {}
    lemma_objects_carry_over(before, after);
}

/// An object that nothing happened to has the values and the names it had.
pub proof fn lemma_a_kept_object_keeps_its_properties(
    before: Blocks,
    after: Blocks,
    offset: int,
    name: Slot,
)
    requires
        shapes_hold(before),
        objects_hold(before),
        shapes_kept(before, after),
        is_object(before, offset),
        object_kept(before, after, offset),
    ensures
        object_names(after, offset) == object_names(before, offset),
        room_of(after, offset) == room_of(before, offset),
        forall|i: int|
            0 <= i < room_of(before, offset) ==> #[trigger] value_of(after, offset, i) == value_of(
                before,
                offset,
                i,
            ),
        property(after, offset, name) == property(before, offset, name),
{
    assert(object_fits(before, offset));
    lemma_names_are_kept(before, after, shape_of(before, offset).target());
    lemma_last_index(object_names(before, offset), name);
}

/// Every object but one keeps its properties when every object but one is kept.
proof fn lemma_others_keep_their_properties(before: Blocks, after: Blocks, changed: int)
    requires
        shapes_hold(before),
        objects_hold(before),
        shapes_kept(before, after),
        others_kept(before, after, changed),
    ensures
        forall|other: int|
            is_object(before, other) && other != changed ==> (#[trigger] is_filled(after, other)
                <==> is_filled(before, other)),
        forall|other: int, key: Slot|
            is_object(before, other) && other != changed ==> #[trigger] property(after, other, key)
                == property(before, other, key),
{
    assert forall|other: int, key: Slot|
        is_object(before, other) && other != changed implies #[trigger] property(after, other, key)
        == property(before, other, key) by {
        lemma_a_kept_object_keeps_its_properties(before, after, other, key);
    }
    assert forall|other: int| is_object(before, other) && other != changed implies (
    #[trigger] is_filled(after, other) <==> is_filled(before, other)) by {
        lemma_a_kept_object_keeps_its_properties(before, after, other, Slot(0));
    }
}

/// Where a name was found there is that name.
pub proof fn lemma_last_index(names: Seq<Slot>, name: Slot)
    ensures
        last_index(names, name) matches Some(index) ==> 0 <= index < names.len() && names[index]
            == name,
    decreases names.len(),
{
    if names.len() > 0 && names.last() != name {
        lemma_last_index(names.drop_last(), name);
    }
}

pub proof fn lemma_kept_shapes_stay_kept(first: Blocks, second: Blocks, third: Blocks)
    requires
        shapes_kept(first, second),
        shapes_kept(second, third),
    ensures
        shapes_kept(first, third),
{
}

proof fn lemma_kept_objects_stay_kept(first: Blocks, second: Blocks, third: Blocks, changed: int)
    requires
        others_kept(first, second, changed),
        others_kept(second, third, changed),
    ensures
        others_kept(first, third, changed),
{
    assert forall|offset: int| #[trigger] is_object(first, offset) && offset != changed implies
        object_kept(first, third, offset) by {
        assert(object_kept(first, second, offset));
        assert(is_object(second, offset));
        assert(object_kept(second, third, offset));
    }
}

/// A transition out of a shape changes no object.
proof fn lemma_objects_outlive_a_transition(
    before: Blocks,
    after: Blocks,
    shape: int,
    object: int,
)
    requires
        objects_hold_together(before),
        is_shape(before, shape),
        is_object(before, object),
        shapes_kept(before, after),
        forall|offset: int|
            offset != shape && before.contains_key(offset) ==> after.contains_key(offset)
                && #[trigger] after[offset] == before[offset],
    ensures
        object_kept(before, after, object),
        others_kept(before, after, object),
        object_names(after, object) == object_names(before, object),
        room_of(after, object) == room_of(before, object),
        forall|i: int|
            0 <= i < room_of(before, object) ==> #[trigger] value_of(after, object, i) == value_of(
                before,
                object,
                i,
            ),
{
    assert forall|offset: int| #[trigger] is_object(before, offset) implies object_kept(
        before,
        after,
        offset,
    ) by {
        assert(object_fits(before, offset));
        assert(after[offset] == before[offset]);
        if array_of(before, offset).points() {
            let array = array_of(before, offset).target();
            assert(after[array] == before[array]);
        }
    }
    lemma_a_kept_object_keeps_its_properties(before, after, object, Slot(0));
}

/// A larger array with the old values copied into it, named by the object, is more room.
proof fn lemma_room_has_grown(
    before: Blocks,
    copied: Blocks,
    after: Blocks,
    offset: int,
    array: int,
    index: int,
)
    requires
        objects_hold_together(before),
        is_object(before, offset),
        !before.contains_key(array),
        copied == before.insert(array, copied[array]),
        is_array(copied, array),
        objects_hold_together(copied),
        is_object(copied, offset),
        after == copied.insert(offset, after[offset]),
        is_object(after, offset),
        shape_of(after, offset) == shape_of(before, offset),
        array_of(after, offset) == Slot::of_target(array),
        inline_of(after, offset) == inline_of(before, offset),
        forall|i: int|
            0 <= i < inline_of(before, offset) ==> #[trigger] u64_at(
                after[offset].bytes,
                16 + 8 * i,
            ) == u64_at(before[offset].bytes, 16 + 8 * i),
        shapes_kept(copied, after),
        others_kept(copied, after, offset),
        inline_of(before, offset) <= index < inline_of(before, offset) + capacity_of(copied, array),
        room_of(before, offset) - inline_of(before, offset) <= capacity_of(copied, array),
        array_of(before, offset).points() ==> forall|i: int|
            0 <= i < capacity_of(before, array_of(before, offset).target()) ==> #[trigger] u64_at(
                copied[array].bytes,
                8 + 8 * i,
            ) == u64_at(before[array_of(before, offset).target()].bytes, 8 + 8 * i),
    ensures
        grew_room(before, after, offset, index),
{
    crate::gc::object::lemma_no_shape_joins(before, array, copied[array]);
    lemma_kept_shapes_stay_kept(before, copied, after);
    assert forall|other: int| #[trigger] is_object(before, other) && other != offset implies
        object_kept(before, copied, other) by {
        assert(object_fits(before, other));
    }
    lemma_kept_objects_stay_kept(before, copied, after, offset);
    assert(object_fits(before, offset));
    let inline = inline_of(before, offset) as int;
    assert forall|i: int| 0 <= i < room_of(before, offset) implies #[trigger] value_of(
        after,
        offset,
        i,
    ) == value_of(before, offset, i) by {
        if i < inline {
            assert(u64_at(after[offset].bytes, 16 + 8 * i) == u64_at(
                before[offset].bytes,
                16 + 8 * i,
            ));
        } else {
            assert(u64_at(copied[array].bytes, 8 + 8 * (i - inline)) == u64_at(
                before[array_of(before, offset).target()].bytes,
                8 + 8 * (i - inline),
            ));
        }
    }
}

/// What storing a value under a name an object has does to its properties.
proof fn lemma_properties_after_a_write(
    before: Blocks,
    after: Blocks,
    offset: int,
    index: int,
    name: Slot,
)
    requires
        objects_hold_together(before),
        is_object(before, offset),
        shapes_kept(before, after),
        is_object(after, offset),
        shape_of(after, offset) == shape_of(before, offset),
        room_of(after, offset) == room_of(before, offset),
        0 <= index < room_of(before, offset),
        last_index(object_names(before, offset), name) == Some(index),
        forall|i: int|
            0 <= i < room_of(before, offset) && i != index ==> #[trigger] value_of(after, offset, i)
                == value_of(before, offset, i),
    ensures
        object_names(after, offset) == object_names(before, offset),
        property(after, offset, name) == Some(value_of(after, offset, index)),
        forall|other: Slot|
            other != name ==> #[trigger] property(after, offset, other) == property(
                before,
                offset,
                other,
            ),
{
    assert(object_fits(before, offset));
    lemma_names_are_kept(before, after, shape_of(before, offset).target());
    let names = object_names(before, offset);
    lemma_last_index(names, name);
    assert forall|other: Slot| other != name implies #[trigger] property(after, offset, other)
        == property(before, offset, other) by {
        lemma_last_index(names, other);
    }
}

/// What adding a property does to those that an object has.
proof fn lemma_properties_after_growth(
    before: Blocks,
    reshaped: Blocks,
    roomy: Blocks,
    shaped: Blocks,
    after: Blocks,
    offset: int,
    index: int,
    name: Slot,
)
    requires
        is_object(before, offset),
        index == object_names(before, offset).len(),
        object_names(after, offset) == object_names(before, offset).push(name),
        last_index(object_names(before, offset), name) is None,
        room_of(reshaped, offset) == room_of(before, offset),
        forall|i: int|
            0 <= i < room_of(before, offset) ==> #[trigger] value_of(reshaped, offset, i)
                == value_of(before, offset, i),
        grew_room(reshaped, roomy, offset, index),
        room_of(shaped, offset) == room_of(roomy, offset),
        forall|i: int|
            0 <= i < room_of(roomy, offset) ==> #[trigger] value_of(shaped, offset, i) == value_of(
                roomy,
                offset,
                i,
            ),
        room_of(after, offset) == room_of(shaped, offset),
        forall|i: int|
            0 <= i < room_of(shaped, offset) && i != index ==> #[trigger] value_of(after, offset, i)
                == value_of(shaped, offset, i),
    ensures
        property(after, offset, name) == Some(value_of(after, offset, index)),
        forall|other: Slot|
            other != name && #[trigger] property(before, offset, other) is Some ==> property(
                after,
                offset,
                other,
            ) == property(before, offset, other),
        forall|other: Slot|
            other != name && last_index(object_names(before, offset), other) is None
                ==> #[trigger] property(after, offset, other) is None,
{
    let names = object_names(before, offset);
    crate::gc::shape::law_adding_a_name_moves_no_other(names, name, name);
    assert forall|other: Slot| other != name && #[trigger] property(
        before,
        offset,
        other,
    ) is Some implies property(after, offset, other) == property(before, offset, other) by {
        crate::gc::shape::law_adding_a_name_moves_no_other(names, name, other);
        lemma_last_index(names, other);
        let i = last_index(names, other)->0;
        assert(value_of(reshaped, offset, i) == value_of(before, offset, i));
        assert(value_of(roomy, offset, i) == value_of(reshaped, offset, i));
        assert(value_of(shaped, offset, i) == value_of(roomy, offset, i));
        assert(value_of(after, offset, i) == value_of(shaped, offset, i));
    }
    assert forall|other: Slot| other != name && last_index(names, other) is None implies #[trigger] property(
        after,
        offset,
        other,
    ) is None by {
        crate::gc::shape::law_adding_a_name_moves_no_other(names, name, other);
    }
}

/// What is stored in one object is not seen in another: every property of every other object is as it
/// was.
pub proof fn law_objects_do_not_see_each_other(
    before: Blocks,
    after: Blocks,
    changed: int,
    other: int,
    name: Slot,
)
    requires
        objects_hold_together(before),
        shapes_kept(before, after),
        others_kept(before, after, changed),
        is_object(before, other),
        other != changed,
    ensures
        is_object(after, other),
        object_names(after, other) == object_names(before, other),
        property(after, other, name) == property(before, other, name),
{
    lemma_a_kept_object_keeps_its_properties(before, after, other, name);
}

/// What is allocated later changes nothing that is there: every object keeps its names, its room and
/// its properties for as long as the blocks it was made of keep theirs.
pub proof fn law_a_grown_heap_keeps_every_object(
    before: Blocks,
    after: Blocks,
    object: int,
    name: Slot,
)
    requires
        objects_hold_together(before),
        forall|offset: int| #[trigger]
            before.contains_key(offset) ==> after.contains_key(offset) && after[offset]
                == before[offset],
        is_object(before, object),
    ensures
        is_object(after, object),
        object_names(after, object) == object_names(before, object),
        is_filled(after, object) == is_filled(before, object),
        property(after, object, name) == property(before, object, name),
{
    assert(object_fits(before, object));
    lemma_a_kept_object_keeps_its_properties(before, after, object, name);
}

/// Two objects built the same way share one description of their layout: with the same names added in
/// the same order below one root, they have one shape, and inherit from the same thing.
pub proof fn law_objects_built_alike_share_a_shape(blocks: Blocks, left: int, right: int)
    requires
        objects_hold_together(blocks),
        is_object(blocks, left),
        is_object(blocks, right),
        root_of(blocks, shape_of(blocks, left).target()) == root_of(
            blocks,
            shape_of(blocks, right).target(),
        ),
        object_names(blocks, left) == object_names(blocks, right),
    ensures
        shape_of(blocks, left) == shape_of(blocks, right),
        prototype_of(blocks, shape_of(blocks, left).target()) == prototype_of(
            blocks,
            root_of(blocks, shape_of(blocks, left).target()),
        ),
{
    assert(object_fits(blocks, left));
    assert(object_fits(blocks, right));
    law_the_same_names_in_the_same_order_reach_one_shape(
        blocks,
        shape_of(blocks, left).target(),
        shape_of(blocks, right).target(),
    );
    law_a_tree_shares_one_prototype(blocks, shape_of(blocks, left).target());
}

/// Objects with one shape have the same names in the same order and inherit from the same thing.
pub proof fn law_a_shape_is_a_layout(blocks: Blocks, left: int, right: int)
    requires
        is_object(blocks, left),
        is_object(blocks, right),
        shape_of(blocks, left) == shape_of(blocks, right),
    ensures
        object_names(blocks, left) == object_names(blocks, right),
        prototype_of(blocks, shape_of(blocks, left).target())
            == prototype_of(blocks, shape_of(blocks, right).target()),
{
}

/// A name is where it was added last, and a name that was never added is nowhere. An object has under
/// a name what is stored at that place, when it has room there.
pub proof fn law_a_property_is_where_its_name_is(blocks: Blocks, offset: int, name: Slot, place: int)
    ensures
        ({
            let names = object_names(blocks, offset);
            &&& 0 <= place < names.len() && names[place] == name && (forall|k: int|
                place < k < names.len() ==> names[k] != name) && place < room_of(blocks, offset)
                ==> property(blocks, offset, name) == Some(value_of(blocks, offset, place))
            &&& (forall|k: int| 0 <= k < names.len() ==> names[k] != name) ==> property(
                blocks,
                offset,
                name,
            ) is None
        }),
{
    lemma_the_last_place(object_names(blocks, offset), name, place);
}

proof fn lemma_the_last_place(names: Seq<Slot>, name: Slot, place: int)
    ensures
        0 <= place < names.len() && names[place] == name && (forall|k: int|
            place < k < names.len() ==> names[k] != name) ==> last_index(names, name) == Some(place),
        (forall|k: int| 0 <= k < names.len() ==> names[k] != name) ==> last_index(names, name) is None,
    decreases names.len(),
{
    if names.len() > 0 {
        assert(names.last() == names[names.len() - 1]);
        lemma_the_last_place(names.drop_last(), name, place);
    }
}

/// An overflow array grows to twice what it was, or to what is wanted, or to four, whichever is most.
pub proof fn law_an_overflow_array_grows_to_the_largest_of_three(capacity: int, wanted: int)
    ensures
        ({
            let grown = grown_capacity(capacity, wanted);
            &&& grown >= 2 * capacity
            &&& grown >= wanted
            &&& grown >= 4
            &&& grown == 2 * capacity || grown == wanted || grown == 4
        }),
{
}

} // verus!
