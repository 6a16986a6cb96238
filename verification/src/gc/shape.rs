//! What a set of objects with the same properties in the same order have in common.
//!
//! A shape says where a property lives without saying what its value is, so every object built the
//! same way shares one. `{x: 1, y: 2}` written a million times is a million objects and one shape.
//!
//! # Why the shapes form a tree
//!
//! A shape is a node in a tree, and the edge from a parent to a child is one property being added.
//! The root is the empty object. So two objects that were built by adding the same names in the same
//! order arrive at the same node without anything comparing their property lists, because they walked
//! the same path.
//!
//! The order is part of the identity. JavaScript specifies the enumeration order of string keys as
//! insertion order, so `{x: 1, y: 2}` and `{y: 2, x: 1}` are genuinely different objects.
//!
//! # What a lookup costs
//!
//! Finding a name walks the parent chain comparing interned name slots, four bytes against four bytes
//! with no dereference of the string. The transition lookup is a scan too, over the children of one
//! shape.
//!
//! # Why the prototype is in here and not in the object
//!
//! Every object sharing a shape shares a prototype, and two objects with the same names in the same
//! order but different prototypes are two shapes. An inline cache that has compared an object's shape
//! against the one it remembers has, in that single comparison, also checked every prototype between
//! the object and wherever the property was found.

use vstd::prelude::*;

use crate::gc::block::{group_words, u32_at, Block, Blocks};
use crate::gc::bump::{BumpHeap, ObjectKind};
use crate::gc::cage::{law_a_slot_is_its_text, Cage, Slot};
use crate::gc::object::{
    allocate_slot, moved_on, objects_hold_together, read_u32, write_kind, write_u32, HeapKind,
};
use crate::gc::ordinary::ObjectRef;
use crate::gc::string::StringRef;
use crate::text::lemma_ends_agree;

verus! {

/// Bytes a shape occupies, which is the same for every shape because they all hold the same seven
/// words: the kind tag, the count, the name, the parent, the first child, the next sibling and the
/// prototype.
pub const SHAPE_SIZE: usize = 28;

/// How many properties an object with the shape at `offset` has.
pub open spec fn count_of(blocks: Blocks, offset: int) -> u32 {
    u32_at(blocks[offset].bytes, 4)
}

/// The name the shape at `offset` added, as a slot.
pub open spec fn name_of(blocks: Blocks, offset: int) -> Slot {
    Slot(u32_at(blocks[offset].bytes, 8))
}

/// The shape the one at `offset` was reached from, as a slot.
pub open spec fn parent_of(blocks: Blocks, offset: int) -> Slot {
    Slot(u32_at(blocks[offset].bytes, 12))
}

/// The newest transition out of the shape at `offset`, as a slot.
pub open spec fn child_of(blocks: Blocks, offset: int) -> Slot {
    Slot(u32_at(blocks[offset].bytes, 16))
}

/// The next transition out of the same parent, as a slot.
pub open spec fn sibling_of(blocks: Blocks, offset: int) -> Slot {
    Slot(u32_at(blocks[offset].bytes, 20))
}

/// What objects with the shape at `offset` inherit from, as a slot.
pub open spec fn prototype_of(blocks: Blocks, offset: int) -> Slot {
    Slot(u32_at(blocks[offset].bytes, 24))
}

/// Whether there is a shape at an offset.
pub open spec fn is_shape(blocks: Blocks, offset: int) -> bool {
    &&& blocks.contains_key(offset)
    &&& 0 <= offset <= u32::MAX
    &&& offset % 8 == 0
    &&& blocks[offset].kind == ObjectKind::Shape
    &&& blocks[offset].bytes.len() >= 28
    &&& u32_at(blocks[offset].bytes, 0) == 8
}

/// Whether a node of the tree fits the nodes it names: its parent is one property shorter and
/// inherits from the same thing, its newest child is one of its own, and the chain of its siblings
/// leads to older children of the same parent.
#[verifier::opaque]
pub open spec fn node_fits(blocks: Blocks, offset: int) -> bool {
    let parent = parent_of(blocks, offset);
    let child = child_of(blocks, offset);
    let sibling = sibling_of(blocks, offset);
    &&& count_of(blocks, offset) == 0 ==> !name_of(blocks, offset).points() && !parent.points()
    &&& count_of(blocks, offset) > 0 ==> {
        &&& name_of(blocks, offset).points()
        &&& parent.points()
        &&& is_shape(blocks, parent.target())
        &&& parent.target() < offset
        &&& count_of(blocks, parent.target()) == count_of(blocks, offset) - 1
        &&& prototype_of(blocks, parent.target()) == prototype_of(blocks, offset)
    }
    &&& child.points() ==> is_shape(blocks, child.target()) && count_of(blocks, child.target()) > 0
        && parent_of(blocks, child.target()) == Slot::of_target(offset)
    &&& sibling.points() ==> is_shape(blocks, sibling.target()) && sibling.target() < offset
        && count_of(blocks, sibling.target()) > 0 && parent_of(blocks, sibling.target()) == parent
}

/// Whether following siblings from a slot reaches the shape at `offset`.
#[verifier::opaque]
pub open spec fn chain_reaches(blocks: Blocks, from: Slot, offset: int) -> bool
    decreases from.0,
{
    &&& from.points()
    &&& is_shape(blocks, from.target())
    &&& from.target() == offset || (sibling_of(blocks, from.target()).0 < from.0 && chain_reaches(
        blocks,
        sibling_of(blocks, from.target()),
        offset,
    ))
}

/// Whether the shape at `offset` is the transition out of the one at `parent` under `name`.
pub open spec fn is_transition(blocks: Blocks, parent: int, name: Slot, offset: int) -> bool {
    &&& is_shape(blocks, offset)
    &&& count_of(blocks, offset) > 0
    &&& parent_of(blocks, offset) == Slot::of_target(parent)
    &&& name_of(blocks, offset) == name
}

/// Whether the shapes of a heap form trees: every node fits, every node is on the chain of its
/// parent's children, and no parent has two children under one name.
pub open spec fn shapes_hold(blocks: Blocks) -> bool {
    &&& forall|offset: int| #[trigger] is_shape(blocks, offset) ==> node_fits(blocks, offset)
    &&& forall|offset: int| #[trigger]
        is_shape(blocks, offset) && count_of(blocks, offset) > 0 ==> chain_reaches(
            blocks,
            child_of(blocks, parent_of(blocks, offset).target()),
            offset,
        )
    &&& forall|left: int, right: int|
        #![trigger is_shape(blocks, left), is_shape(blocks, right)]
        is_shape(blocks, left) && is_shape(blocks, right) && count_of(blocks, left) > 0 && count_of(
            blocks,
            right,
        ) > 0 && parent_of(blocks, left) == parent_of(blocks, right) && name_of(blocks, left)
            == name_of(blocks, right) ==> left == right
}

/// The names of an object with the shape at `offset`, in the order they were added, as slots.
pub open spec fn names_of(blocks: Blocks, offset: int) -> Seq<Slot>
    decreases count_of(blocks, offset),
{
    let parent = parent_of(blocks, offset).target();
    if count_of(blocks, offset) == 0 || count_of(blocks, parent) >= count_of(blocks, offset) {
        Seq::empty()
    } else {
        names_of(blocks, parent).push(name_of(blocks, offset))
    }
}

/// The root of the tree that the shape at `offset` is in.
pub open spec fn root_of(blocks: Blocks, offset: int) -> int
    decreases count_of(blocks, offset),
{
    let parent = parent_of(blocks, offset).target();
    if count_of(blocks, offset) == 0 || count_of(blocks, parent) >= count_of(blocks, offset) {
        offset
    } else {
        root_of(blocks, parent)
    }
}

/// The last place a name is in a list of names.
pub open spec fn last_index(names: Seq<Slot>, name: Slot) -> Option<int>
    decreases names.len(),
{
    if names.len() == 0 {
        None
    } else if names.last() == name {
        Some(names.len() - 1)
    } else {
        last_index(names.drop_last(), name)
    }
}

/// Whether every shape of one heap is in another with the same place in the same tree. Its newest
/// child may differ, because a shape can have been given a new name.
pub open spec fn shapes_kept(before: Blocks, after: Blocks) -> bool {
    forall|offset: int| #[trigger]
        is_shape(before, offset) ==> {
            &&& is_shape(after, offset)
            &&& count_of(after, offset) == count_of(before, offset)
            &&& name_of(after, offset) == name_of(before, offset)
            &&& parent_of(after, offset) == parent_of(before, offset)
            &&& sibling_of(after, offset) == sibling_of(before, offset)
            &&& prototype_of(after, offset) == prototype_of(before, offset)
        }
}

/// One node in the transition tree: a property layout that objects share.
#[derive(Clone, Copy, Debug, PartialEq, Eq, Hash, Structural)]
pub struct ShapeRef(Slot);

impl ShapeRef {
    /// The slot behind the reference.
    pub closed spec fn slotted(self) -> Slot {
        self.0
    }

    /// How the reference is written for a person: what it names and where that is.
    pub open spec fn text(self) -> Seq<char> {
        "shape@"@ + self.slotted().text()
    }

    /// The reference for a person to read, which is enough to tell two of them apart.
    pub fn to_string(&self) -> (out: String)
        ensures
            out@ == self.text(),
    {
        let mut out = String::new();
        out.append("shape@");
        out.append(self.0.to_string().as_str());
        assert(out@ =~= self.text());
        out
    }

    /// A slot names one reference: two with the same slot, pointing at one offset, or written alike are
    /// the same.
    pub proof fn law_a_slot_names_one_reference(self, other: ShapeRef)
        ensures
            self.slotted() == other.slotted() <==> self == other,
            self.slotted().points() && other.slotted().points() && self.slotted().target()
                == other.slotted().target() ==> self == other,
            self.text() == other.text() <==> self == other,
            self.text() == "shape@"@ + self.slotted().text(),
    {
        lemma_ends_agree("shape@"@, self.slotted().text(), other.slotted().text());
        law_a_slot_is_its_text(self.slotted(), other.slotted());
    }

    /// The offset the reference names.
    pub open spec fn at(self) -> int {
        self.slotted().target()
    }

    /// Whether the reference names a shape in a heap.
    pub open spec fn names_in(self, blocks: Blocks) -> bool {
        self.slotted().points() && is_shape(blocks, self.at())
    }

    /// The shape of an object with no properties that inherits from `prototype`.
    ///
    /// One per prototype, held by whoever owns the heap, because two roots for the same prototype
    /// would mean two trees and two objects built identically could then have different shapes.
    ///
    /// `None` for the prototype means an object with nothing above it, which is what
    /// `Object.create(null)` makes and what `Object.prototype` itself is.
    ///
    /// Returns `None` if the heap is full.
    #[must_use]
    pub fn root(heap: &mut BumpHeap, prototype: Option<ObjectRef>) -> (shape: Option<ShapeRef>)
        requires
            old(heap).wf(),
        ensures
            final(heap).wf(),
            shape is Some <==> old(heap).has_room(28),
            shape is None ==> *final(heap) == *old(heap),
            shape matches Some(made) ==> {
                &&& made.at() == old(heap).next()
                &&& made.names_in(final(heap)@)
                &&& !old(heap)@.contains_key(made.at())
                &&& final(heap)@ == old(heap)@.insert(made.at(), final(heap)@[made.at()])
                &&& moved_on(*old(heap), *final(heap), ObjectKind::Shape, 28)
                &&& count_of(final(heap)@, made.at()) == 0
                &&& names_of(final(heap)@, made.at()) == Seq::<Slot>::empty()
                &&& prototype_of(final(heap)@, made.at()) == match prototype {
                    Some(object) => object.slotted(),
                    None => Slot(0),
                }
                &&& shapes_kept(old(heap)@, final(heap)@)
            },
    {
        broadcast use group_words;

        let ghost before = *heap;
        let slot = match allocate_slot(heap, SHAPE_SIZE, ObjectKind::Shape) {
            Some(slot) => slot,
            None => {
                return None;
            },
        };
        let above: u32 = match prototype {
            Some(object) => object.slot().to_bits(),
            None => 0,
        };
        let offset: u32 = slot.to_bits() - 1;
        write_kind(heap, offset, HeapKind::Shape);
        write_u32(heap, offset, 24, above);
        let shape = ShapeRef(slot);
        proof {
            let block = Block::fresh(ObjectKind::Shape, 28).put_u32(0, 8).put_u32(24, above);
            assert(heap@ =~= before@.insert(shape.at(), block));
            lemma_a_root_joins_the_heap(before@, shape.at(), block);
        }
        Some(shape)
    }

    /// How many properties an object with this shape has.
    #[must_use]
    pub fn count(self, cage: &Cage) -> (count: u32)
        requires
            cage.laid_out(),
            self.names_in(cage@),
        ensures
            count == count_of(cage@, self.at()),
            shapes_hold(cage@) ==> count == names_of(cage@, self.at()).len(),
    {
        proof {
            if shapes_hold(cage@) {
                lemma_count_is_the_number_of_names(cage@, self.at());
            }
        }
        self.field(cage, 4)
    }

    /// The name this shape added, or `None` at the root, which added nothing.
    #[must_use]
    pub fn name(self, cage: &Cage) -> (name: Option<StringRef>)
        requires
            cage.laid_out(),
            self.names_in(cage@),
        ensures
            name is Some <==> name_of(cage@, self.at()).points(),
            name matches Some(found) ==> found.slotted() == name_of(cage@, self.at()),
            shapes_hold(cage@) ==> (name is None <==> count_of(cage@, self.at()) == 0),
    {
        proof {
            if shapes_hold(cage@) {
                lemma_node(cage@, self.at());
            }
        }
        StringRef::from_slot(Slot::from_bits(self.field(cage, 8)))
    }

    /// The shape this one was reached from, or `None` at the root.
    #[must_use]
    pub fn parent(self, cage: &Cage) -> (parent: Option<ShapeRef>)
        requires
            cage.laid_out(),
            self.names_in(cage@),
        ensures
            parent is Some <==> parent_of(cage@, self.at()).points(),
            parent matches Some(found) ==> found.slotted() == parent_of(cage@, self.at()),
            shapes_hold(cage@) ==> (parent is None <==> count_of(cage@, self.at()) == 0),
            shapes_hold(cage@) && parent is Some ==> parent->0.names_in(cage@) && names_of(
                cage@,
                self.at(),
            ) == names_of(cage@, parent->0.at()).push(name_of(cage@, self.at())),
    {
        proof {
            if shapes_hold(cage@) {
                lemma_node(cage@, self.at());
            }
        }
        ShapeRef::from_slot(Slot::from_bits(self.field(cage, 12)))
    }

    /// What an object with this shape inherits from, or `None` if it inherits from nothing.
    #[must_use]
    pub fn prototype(self, cage: &Cage) -> (prototype: Option<ObjectRef>)
        requires
            cage.laid_out(),
            self.names_in(cage@),
        ensures
            prototype is Some <==> prototype_of(cage@, self.at()).points(),
            prototype matches Some(found) ==> found.slotted() == prototype_of(cage@, self.at()),
    {
        ObjectRef::from_slot(Slot::from_bits(self.field(cage, 24)))
    }

    /// Where `name` sits in an object with this shape, or `None` if it has no such property.
    ///
    /// The index is a property number and not a byte offset, because where the value physically lives
    /// depends on how much room the object was built with rather than on the shape.
    ///
    /// The comparison is between interned slots and not between strings, so a name that was not
    /// interned misses even when the text matches.
    #[must_use]
    pub fn index_of(self, cage: &Cage, name: StringRef) -> (index: Option<u32>)
        requires
            cage.laid_out(),
            shapes_hold(cage@),
            self.names_in(cage@),
        ensures
            index is Some <==> last_index(names_of(cage@, self.at()), name.slotted()) is Some,
            index matches Some(found) ==> last_index(names_of(cage@, self.at()), name.slotted())
                == Some(found as int) && found < count_of(cage@, self.at()),
    {
        let wanted: u32 = name.slot().to_bits();
        let mut shape: ShapeRef = self;
        let mut count: u32 = shape.count(cage);
        while count > 0
            invariant
                cage.laid_out(),
                shapes_hold(cage@),
                shape.names_in(cage@),
                count == count_of(cage@, shape.at()),
                count <= count_of(cage@, self.at()),
                wanted == name.slotted().0,
                last_index(names_of(cage@, self.at()), name.slotted()) == last_index(
                    names_of(cage@, shape.at()),
                    name.slotted(),
                ),
            decreases count,
        {
            proof {
                lemma_node(cage@, shape.at());
                lemma_count_is_the_number_of_names(cage@, shape.at());
            }
            let ghost names = names_of(cage@, shape.at());
            if shape.field(cage, 8) == wanted {
                assert(names.last() == name.slotted());
                return Some(count - 1);
            }
            match shape.parent(cage) {
                Some(parent) => {
                    assert(names.drop_last() =~= names_of(cage@, parent.at()));
                    shape = parent;
                },
                None => {
                    return None;
                },
            }
            count = shape.count(cage);
        }
        None
    }

    /// The shape an object of this shape has after `name` is added to it.
    ///
    /// Reuses the transition if this shape has been given that name before, and creates one
    /// otherwise, which is what makes two objects built the same way share a shape rather than merely
    /// have equal layouts.
    ///
    /// The caller is responsible for having asked [`ShapeRef::index_of`] first. Adding a name that is
    /// already in the chain would build a shape with the same name twice, where the second is
    /// unreachable, and that is a property being overwritten rather than added.
    ///
    /// Returns `None` if the heap is full.
    #[must_use]
    pub fn transition(self, heap: &mut BumpHeap, name: StringRef) -> (shape: Option<ShapeRef>)
        requires
            old(heap).wf(),
            self.names_in(old(heap)@),
            name.slotted().points(),
            last_index(names_of(old(heap)@, self.at()), name.slotted()) is None,
        ensures
            final(heap).wf(),
            shape is Some <==> has_transition(old(heap)@, self.at(), name.slotted()) || (count_of(
                old(heap)@,
                self.at(),
            ) < u32::MAX && old(heap).has_room(28)),
            shape is None || has_transition(old(heap)@, self.at(), name.slotted())
                ==> *final(heap) == *old(heap),
            shape matches Some(found) ==> {
                &&& found.slotted().points()
                &&& is_transition(final(heap)@, self.at(), name.slotted(), found.at())
                &&& prototype_of(final(heap)@, found.at()) == prototype_of(final(heap)@, self.at())
                &&& names_of(final(heap)@, found.at()) == names_of(old(heap)@, self.at()).push(
                    name.slotted(),
                )
                &&& !has_transition(old(heap)@, self.at(), name.slotted()) ==> {
                    &&& found.at() == old(heap).next()
                    &&& !old(heap)@.contains_key(found.at())
                    &&& final(heap)@.dom() == old(heap)@.dom().insert(found.at())
                    &&& moved_on(*old(heap), *final(heap), ObjectKind::Shape, 28)
                }
            },
            shapes_kept(old(heap)@, final(heap)@),
            forall|offset: int|
                offset != self.at() && old(heap)@.contains_key(offset) ==> final(heap)@.contains_key(
                    offset,
                ) && #[trigger] final(heap)@[offset] == old(heap)@[offset],
    {
        if let Some(existing) = self.child_named(heap.cage(), name) {
            proof {
                lemma_a_transition_adds_a_name(
                    heap@,
                    self.at(),
                    name.slotted(),
                    existing.at(),
                );
            }
            return Some(existing);
        }
        let count: u32 = self.count(heap.cage());
        if count == u32::MAX {
            return None;
        }
        let first_child: u32 = self.field(heap.cage(), 16);
        // Adding a property does not change what an object inherits from, so the child carries the
        // parent's prototype down rather than the tree being searched for it later.
        let above: u32 = self.field(heap.cage(), 24);
        let ghost before = *heap;
        let slot = match allocate_slot(heap, SHAPE_SIZE, ObjectKind::Shape) {
            Some(slot) => slot,
            None => {
                return None;
            },
        };
        proof {
            before.cage_lemma(self.at());
        }
        let shape = ShapeRef(slot);
        let parent: u32 = self.slot().to_bits();
        let ghost allocated = *heap;
        shape.write_fields(heap, count + 1, name.slot().to_bits(), parent, first_child, above);
        // The new child goes on the front of the parent's list, which is one store rather than a walk
        // to the end, and the order children are chained in is not observable.
        let own: u32 = self.0.to_bits() - 1;
        write_u32(heap, own, 16, slot.to_bits());
        proof {
            let node = shape_block((count + 1) as u32, name.slotted().0, parent, first_child, above);
            assert(heap@ =~= linked(before@, self.at(), shape.at(), node));
            assert forall|other: int| #[trigger] before@.contains_key(other) implies other
                < shape.at() by {
                before.cage_lemma(other);
            }
            lemma_a_transition_joins_the_heap(
                before@,
                self.at(),
                name.slotted(),
                shape.at(),
                node,
            );
            lemma_a_transition_adds_a_name(heap@, self.at(), name.slotted(), shape.at());
            lemma_names_are_kept(before@, heap@, self.at());
            assert(heap@.dom() =~= before@.dom().insert(shape.at()));
        }
        Some(shape)
    }

    /// Every name an object with this shape has, in the order they were added.
    ///
    /// Insertion order is what printing and enumeration want, so the chain is walked backwards and
    /// then reversed rather than being read out as it comes.
    #[must_use]
    pub fn names(self, cage: &Cage) -> (names: Vec<StringRef>)
        requires
            cage.laid_out(),
            shapes_hold(cage@),
            self.names_in(cage@),
        ensures
            names@.len() == names_of(cage@, self.at()).len(),
            forall|i: int|
                0 <= i < names@.len() ==> (#[trigger] names@[i]).slotted() == names_of(
                    cage@,
                    self.at(),
                )[i],
    {
        let ghost all = names_of(cage@, self.at());
        let mut backwards: Vec<StringRef> = Vec::new();
        let mut shape: ShapeRef = self;
        let mut count: u32 = shape.count(cage);
        proof {
            lemma_count_is_the_number_of_names(cage@, self.at());
        }
        while count > 0
            invariant
                cage.laid_out(),
                shapes_hold(cage@),
                shape.names_in(cage@),
                count == count_of(cage@, shape.at()),
                count <= all.len(),
                names_of(cage@, shape.at()) == all.take(count as int),
                backwards@.len() == all.len() - count,
                forall|i: int|
                    0 <= i < backwards@.len() ==> (#[trigger] backwards@[i]).slotted() == all[
                    all.len() - 1 - i],
            decreases count,
        {
            proof {
                lemma_node(cage@, shape.at());
            }
            if let Some(name) = shape.name(cage) {
                assert(all.take(count as int).last() == name.slotted());
                assert(all[count - 1] == name.slotted());
                backwards.push(name);
            }
            if let Some(parent) = shape.parent(cage) {
                assert(names_of(cage@, parent.at()) =~= all.take(count as int).drop_last());
                assert(all.take(count - 1) =~= all.take(count as int).drop_last());
                shape = parent;
            }
            count = shape.count(cage);
        }
        reversed(&backwards)
    }

    /// The slot this shape lives at, for writing into an object's first word.
    #[must_use]
    pub fn slot(self) -> (slot: Slot)
        ensures
            slot == self.slotted(),
    {
        self.0
    }

    /// Read a shape back out of a slot, or `None` if the slot is not a pointer.
    #[must_use]
    pub fn from_slot(slot: Slot) -> (shape: Option<ShapeRef>)
        ensures
            shape is Some <==> slot.points(),
            shape matches Some(found) ==> found.slotted() == slot,
    {
        if slot.is_pointer() {
            Some(ShapeRef(slot))
        } else {
            None
        }
    }

    /// The transition out of this shape under `name`, if there has ever been one.
    fn child_named(self, cage: &Cage, name: StringRef) -> (child: Option<ShapeRef>)
        requires
            cage.laid_out(),
            shapes_hold(cage@),
            self.names_in(cage@),
        ensures
            child is Some <==> has_transition(cage@, self.at(), name.slotted()),
            child matches Some(found) ==> found.slotted().points() && is_transition(
                cage@,
                self.at(),
                name.slotted(),
                found.at(),
            ),
    {
        let wanted: u32 = name.slot().to_bits();
        let mut child: Slot = Slot::from_bits(self.field(cage, 16));
        proof {
            lemma_node(cage@, self.at());
            assert forall|offset: int| #[trigger] is_transition(
                cage@,
                self.at(),
                name.slotted(),
                offset,
            ) implies chain_reaches(cage@, child, offset) by {
                assert(is_shape(cage@, offset));
            }
        }
        while child.is_pointer()
            invariant
                cage.laid_out(),
                shapes_hold(cage@),
                self.names_in(cage@),
                wanted == name.slotted().0,
                child.points() ==> is_shape(cage@, child.target()) && count_of(
                    cage@,
                    child.target(),
                ) > 0 && parent_of(cage@, child.target()) == Slot::of_target(self.at()),
                forall|offset: int| #[trigger]
                    is_transition(cage@, self.at(), name.slotted(), offset) ==> chain_reaches(
                        cage@,
                        child,
                        offset,
                    ),
            ensures
                !child.points(),
            decreases child.0,
        {
            let shape = ShapeRef(child);
            if shape.field(cage, 8) == wanted {
                assert(is_transition(cage@, self.at(), name.slotted(), shape.at()));
                return Some(shape);
            }
            proof {
                lemma_node(cage@, shape.at());
            }
            let ghost before = child;
            child = Slot::from_bits(shape.field(cage, 20));
            proof {
                assert forall|offset: int| #[trigger] is_transition(
                    cage@,
                    self.at(),
                    name.slotted(),
                    offset,
                ) implies chain_reaches(cage@, child, offset) by {
                    lemma_chain_step(cage@, before, offset);
                }
            }
            if !child.is_pointer() {
                break ;
            }
        }
        proof {
            assert forall|offset: int| !#[trigger] is_transition(
                cage@,
                self.at(),
                name.slotted(),
                offset,
            ) by {
                reveal(chain_reaches);
            }
        }
        None
    }

    /// Write every field of a shape that has just been allocated.
    fn write_fields(
        self,
        heap: &mut BumpHeap,
        count: u32,
        name: u32,
        parent: u32,
        sibling: u32,
        prototype: u32,
    )
        requires
            old(heap).laid_out(),
            self.slotted().points(),
            old(heap)@.contains_key(self.at()),
            old(heap)@[self.at()] == Block::fresh(ObjectKind::Shape, 28),
        ensures
            final(heap).laid_out(),
            final(heap).stays(*old(heap)),
            final(heap)@ == old(heap)@.insert(
                self.at(),
                shape_block(count, name, parent, sibling, prototype),
            ),
    {
        broadcast use group_words;

        let ghost before = heap@;
        let offset: u32 = self.0.to_bits() - 1;
        write_kind(heap, offset, HeapKind::Shape);
        write_u32(heap, offset, 4, count);
        write_u32(heap, offset, 8, name);
        write_u32(heap, offset, 12, parent);
        write_u32(heap, offset, 20, sibling);
        write_u32(heap, offset, 24, prototype);
        assert(heap@ =~= before.insert(
            self.at(),
            shape_block(count, name, parent, sibling, prototype),
        ));
    }

    /// One of the words of a shape, as raw bits.
    fn field(self, cage: &Cage, at: usize) -> (word: u32)
        requires
            cage.laid_out(),
            self.names_in(cage@),
            at <= 24,
        ensures
            word == u32_at(cage@[self.at()].bytes, at as int),
    {
        read_u32(cage, self.0.to_bits() - 1, at)
    }
}

/// Whether a shape has been given a name before.
pub open spec fn has_transition(blocks: Blocks, parent: int, name: Slot) -> bool {
    exists|offset: int| #[trigger] is_transition(blocks, parent, name, offset)
}

/// The block of a shape that nothing has been added to yet.
spec fn shape_block(count: u32, name: u32, parent: u32, sibling: u32, prototype: u32) -> Block {
    Block::fresh(ObjectKind::Shape, 28).put_u32(0, 8).put_u32(4, count).put_u32(8, name).put_u32(
        12,
        parent,
    ).put_u32(20, sibling).put_u32(24, prototype)
}

/// A heap with a new shape in it that is the newest child of another.
spec fn linked(blocks: Blocks, parent: int, offset: int, node: Block) -> Blocks {
    blocks.insert(offset, node).insert(
        parent,
        blocks[parent].put_u32(16, Slot::of_target(offset).0),
    )
}

/// The items of a list, last one first.
fn reversed(items: &Vec<StringRef>) -> (turned: Vec<StringRef>)
    ensures
        turned@.len() == items@.len(),
        forall|i: int| 0 <= i < turned@.len() ==> #[trigger] turned@[i] == items@[items@.len() - 1 - i],
{
    let mut turned: Vec<StringRef> = Vec::new();
    let mut left: usize = items.len();
    while left > 0
        invariant
            left <= items@.len(),
            turned@.len() == items@.len() - left,
            forall|i: int|
                0 <= i < turned@.len() ==> #[trigger] turned@[i] == items@[items@.len() - 1 - i],
        decreases left,
    {
        left = left - 1;
        turned.push(items[left]);
    }
    turned
}

/// A shape has as many names as its count says.
pub proof fn lemma_count_is_the_number_of_names(blocks: Blocks, offset: int)
    requires
        shapes_hold(blocks),
        is_shape(blocks, offset),
    ensures
        names_of(blocks, offset).len() == count_of(blocks, offset),
    decreases count_of(blocks, offset),
{
    lemma_node(blocks, offset);
    if count_of(blocks, offset) > 0 {
        lemma_count_is_the_number_of_names(blocks, parent_of(blocks, offset).target());
    }
}

/// A transition adds its name to those of the shape it comes from.
proof fn lemma_a_transition_adds_a_name(blocks: Blocks, parent: int, name: Slot, offset: int)
    requires
        shapes_hold(blocks),
        is_shape(blocks, parent),
        is_transition(blocks, parent, name, offset),
    ensures
        names_of(blocks, offset) == names_of(blocks, parent).push(name),
        prototype_of(blocks, offset) == prototype_of(blocks, parent),
{
    lemma_node(blocks, offset);
}

/// The names of a shape stay what they are in a heap that keeps the shapes.
pub proof fn lemma_names_are_kept(before: Blocks, after: Blocks, offset: int)
    requires
        shapes_hold(before),
        shapes_kept(before, after),
        is_shape(before, offset),
    ensures
        names_of(after, offset) == names_of(before, offset),
        root_of(after, offset) == root_of(before, offset),
    decreases count_of(before, offset),
{
    lemma_node(before, offset);
    if count_of(before, offset) > 0 {
        let parent = parent_of(before, offset).target();
        assert(is_shape(before, parent));
        lemma_names_are_kept(before, after, parent);
    }
}

/// A chain of siblings still reaches what it reached in a heap that keeps the shapes.
proof fn lemma_chains_are_kept(before: Blocks, after: Blocks, from: Slot, offset: int)
    requires
        shapes_kept(before, after),
        chain_reaches(before, from, offset),
    ensures
        chain_reaches(after, from, offset),
    decreases from.0,
{
    reveal(chain_reaches);
    assert(is_shape(before, from.target()));
    if from.target() != offset {
        lemma_chains_are_kept(before, after, sibling_of(before, from.target()), offset);
    }
}

/// A chain that reaches a shape other than its first one reaches it from the next.
proof fn lemma_chain_step(blocks: Blocks, from: Slot, offset: int)
    requires
        chain_reaches(blocks, from, offset),
        from.target() != offset,
    ensures
        from.points(),
        chain_reaches(blocks, sibling_of(blocks, from.target()), offset),
{
    reveal(chain_reaches);
}

/// A chain with one more shape in front reaches that shape and what it reached before.
proof fn lemma_chain_grows(blocks: Blocks, front: Slot, offset: int)
    requires
        front.points(),
        is_shape(blocks, front.target()),
        front.target() == offset || sibling_of(blocks, front.target()).0 < front.0 && chain_reaches(
            blocks,
            sibling_of(blocks, front.target()),
            offset,
        ),
    ensures
        chain_reaches(blocks, front, offset),
{
    reveal(chain_reaches);
}

/// What a chain reaches starts with a shape.
proof fn lemma_chain_start(blocks: Blocks, from: Slot, offset: int)
    requires
        chain_reaches(blocks, from, offset),
    ensures
        from.points(),
        is_shape(blocks, from.target()),
{
    reveal(chain_reaches);
}

/// What fitting says, written out.
pub proof fn lemma_node(blocks: Blocks, offset: int)
    requires
        shapes_hold(blocks),
        is_shape(blocks, offset),
    ensures
        ({
            let parent = parent_of(blocks, offset);
            let child = child_of(blocks, offset);
            let sibling = sibling_of(blocks, offset);
            &&& count_of(blocks, offset) == 0 ==> !name_of(blocks, offset).points()
                && !parent.points()
            &&& count_of(blocks, offset) > 0 ==> {
                &&& name_of(blocks, offset).points()
                &&& parent.points()
                &&& is_shape(blocks, parent.target())
                &&& parent.target() < offset
                &&& count_of(blocks, parent.target()) == count_of(blocks, offset) - 1
                &&& prototype_of(blocks, parent.target()) == prototype_of(blocks, offset)
            }
            &&& child.points() ==> is_shape(blocks, child.target()) && count_of(
                blocks,
                child.target(),
            ) > 0 && parent_of(blocks, child.target()) == Slot::of_target(offset)
            &&& sibling.points() ==> is_shape(blocks, sibling.target()) && sibling.target() < offset
                && count_of(blocks, sibling.target()) > 0 && parent_of(blocks, sibling.target())
                == parent
        }),
{
    reveal(node_fits);
}

/// A node whose newest child is the same still fits in a heap that keeps the shapes.
proof fn lemma_a_node_still_fits(before: Blocks, after: Blocks, offset: int)
    requires
        shapes_hold(before),
        shapes_kept(before, after),
        is_shape(before, offset),
        child_of(after, offset) == child_of(before, offset),
    ensures
        node_fits(after, offset),
{
    lemma_node(before, offset);
    reveal(node_fits);
}

/// A node other than the parent of a new one is still on the chain of its parent's children.
proof fn lemma_a_node_is_still_on_its_chain(before: Blocks, after: Blocks, offset: int)
    requires
        shapes_hold(before),
        shapes_kept(before, after),
        is_shape(before, offset),
        count_of(before, offset) > 0,
        child_of(after, parent_of(before, offset).target()) == child_of(
            before,
            parent_of(before, offset).target(),
        ),
    ensures
        chain_reaches(after, child_of(after, parent_of(after, offset).target()), offset),
{
    lemma_chains_are_kept(
        before,
        after,
        child_of(before, parent_of(before, offset).target()),
        offset,
    );
}

/// Blocks that are not shapes, before or after, do not matter to the shapes.
pub proof fn lemma_shapes_do_not_mind(blocks: Blocks, offset: int, block: Block)
    requires
        shapes_hold(blocks),
        !is_shape(blocks, offset),
        !is_shape(blocks.insert(offset, block), offset),
    ensures
        shapes_hold(blocks.insert(offset, block)),
        shapes_kept(blocks, blocks.insert(offset, block)),
        forall|other: int| #[trigger]
            is_shape(blocks.insert(offset, block), other) == is_shape(blocks, other),
{
    let after = blocks.insert(offset, block);
    assert forall|other: int| #[trigger] is_shape(after, other) == is_shape(blocks, other) by {}
    assert(shapes_kept(blocks, after));
    assert forall|other: int| #[trigger] is_shape(after, other) implies node_fits(after, other) by {
        assert(is_shape(blocks, other));
        lemma_a_node_still_fits(blocks, after, other);
    }
    assert forall|other: int| #[trigger]
        is_shape(after, other) && count_of(after, other) > 0 implies chain_reaches(
        after,
        child_of(after, parent_of(after, other).target()),
        other,
    ) by {
        assert(is_shape(blocks, other));
        lemma_node(blocks, other);
        lemma_a_node_is_still_on_its_chain(blocks, after, other);
    }
    assert forall|left: int, right: int|
        #![trigger is_shape(after, left), is_shape(after, right)]
        is_shape(after, left) && is_shape(after, right) && count_of(after, left) > 0 && count_of(
            after,
            right,
        ) > 0 && parent_of(after, left) == parent_of(after, right) && name_of(after, left)
            == name_of(after, right) implies left == right by {
        assert(is_shape(blocks, left));
        assert(is_shape(blocks, right));
    }
}

/// A root can be added to a heap.
proof fn lemma_a_root_joins_the_shapes(blocks: Blocks, offset: int, node: Block)
    requires
        shapes_hold(blocks),
        !blocks.contains_key(offset),
        is_shape(blocks.insert(offset, node), offset),
        count_of(blocks.insert(offset, node), offset) == 0,
        !name_of(blocks.insert(offset, node), offset).points(),
        !parent_of(blocks.insert(offset, node), offset).points(),
        !child_of(blocks.insert(offset, node), offset).points(),
        !sibling_of(blocks.insert(offset, node), offset).points(),
    ensures
        shapes_hold(blocks.insert(offset, node)),
        shapes_kept(blocks, blocks.insert(offset, node)),
{
    let after = blocks.insert(offset, node);
    assert forall|other: int| other != offset implies #[trigger] is_shape(after, other) == is_shape(
        blocks,
        other,
    ) by {}
    assert(shapes_kept(blocks, after));
    assert forall|other: int| #[trigger] is_shape(after, other) implies node_fits(after, other) by {
        if other != offset {
            assert(is_shape(blocks, other));
            lemma_a_node_still_fits(blocks, after, other);
        } else {
            reveal(node_fits);
        }
    }
    assert forall|other: int| #[trigger]
        is_shape(after, other) && count_of(after, other) > 0 implies chain_reaches(
        after,
        child_of(after, parent_of(after, other).target()),
        other,
    ) by {
        assert(is_shape(blocks, other));
        lemma_node(blocks, other);
        lemma_a_node_is_still_on_its_chain(blocks, after, other);
    }
    assert forall|left: int, right: int|
        #![trigger is_shape(after, left), is_shape(after, right)]
        is_shape(after, left) && is_shape(after, right) && count_of(after, left) > 0 && count_of(
            after,
            right,
        ) > 0 && parent_of(after, left) == parent_of(after, right) && name_of(after, left)
            == name_of(after, right) implies left == right by {
        assert(is_shape(blocks, left));
        assert(is_shape(blocks, right));
    }
}

proof fn lemma_a_root_joins_the_heap(blocks: Blocks, offset: int, node: Block)
    requires
        objects_hold_together(blocks),
        !blocks.contains_key(offset),
        0 <= offset <= u32::MAX,
        offset % 8 == 0,
        node.kind == ObjectKind::Shape,
        node.bytes.len() == 28,
        u32_at(node.bytes, 0) == 8,
        u32_at(node.bytes, 4) == 0,
        u32_at(node.bytes, 8) == 0,
        u32_at(node.bytes, 12) == 0,
        u32_at(node.bytes, 16) == 0,
        u32_at(node.bytes, 20) == 0,
    ensures
        objects_hold_together(blocks.insert(offset, node)),
        shapes_kept(blocks, blocks.insert(offset, node)),
        is_shape(blocks.insert(offset, node), offset),
{
    let after = blocks.insert(offset, node);
    lemma_a_root_joins_the_shapes(blocks, offset, node);
    crate::gc::object::lemma_shapes_do_not_disturb_the_rest(blocks, after);
}

/// The new node of a transition reads back as it was written.
proof fn lemma_shape_block(count: u32, name: u32, parent: u32, sibling: u32, prototype: u32)
    ensures
        ({
            let node = shape_block(count, name, parent, sibling, prototype);
            &&& node.kind == ObjectKind::Shape
            &&& node.bytes.len() == 28
            &&& u32_at(node.bytes, 0) == 8
            &&& u32_at(node.bytes, 4) == count
            &&& u32_at(node.bytes, 8) == name
            &&& u32_at(node.bytes, 12) == parent
            &&& u32_at(node.bytes, 16) == 0
            &&& u32_at(node.bytes, 20) == sibling
            &&& u32_at(node.bytes, 24) == prototype
        }),
{
    broadcast use group_words;

}

/// A transition out of a shape under a name it has not been given before keeps the trees.
proof fn lemma_a_transition_joins_the_heap(
    blocks: Blocks,
    parent: int,
    name: Slot,
    offset: int,
    node: Block,
)
    requires
        objects_hold_together(blocks),
        is_shape(blocks, parent),
        name.points(),
        !has_transition(blocks, parent, name),
        !blocks.contains_key(offset),
        parent < offset <= u32::MAX,
        offset % 8 == 0,
        forall|other: int| #[trigger] blocks.contains_key(other) ==> other < offset,
        count_of(blocks, parent) < u32::MAX,
        node == shape_block(
            (count_of(blocks, parent) + 1) as u32,
            name.0,
            Slot::of_target(parent).0,
            child_of(blocks, parent).0,
            prototype_of(blocks, parent).0,
        ),
    ensures
        objects_hold_together(linked(blocks, parent, offset, node)),
        shapes_kept(blocks, linked(blocks, parent, offset, node)),
        is_transition(linked(blocks, parent, offset, node), parent, name, offset),
        is_shape(linked(blocks, parent, offset, node), parent),
{
    broadcast use group_words;

    lemma_shape_block(
        (count_of(blocks, parent) + 1) as u32,
        name.0,
        Slot::of_target(parent).0,
        child_of(blocks, parent).0,
        prototype_of(blocks, parent).0,
    );
    lemma_links(blocks, parent, name, offset, node);
    let after = linked(blocks, parent, offset, node);
    assert forall|other: int| #[trigger] is_shape(after, other) implies node_fits(after, other) by {
        lemma_linked_nodes_fit(blocks, after, parent, offset, other);
    }
    assert forall|other: int| #[trigger]
        is_shape(after, other) && count_of(after, other) > 0 implies chain_reaches(
        after,
        child_of(after, parent_of(after, other).target()),
        other,
    ) by {
        lemma_linked_nodes_are_on_their_chain(blocks, after, parent, offset, other);
    }
    assert forall|left: int, right: int|
        #![trigger is_shape(after, left), is_shape(after, right)]
        is_shape(after, left) && is_shape(after, right) && count_of(after, left) > 0 && count_of(
            after,
            right,
        ) > 0 && parent_of(after, left) == parent_of(after, right) && name_of(after, left)
            == name_of(after, right) implies left == right by {
        if left == offset && right != offset {
            assert(is_shape(blocks, right));
            assert(is_transition(blocks, parent, name, right));
        } else if right == offset && left != offset {
            assert(is_shape(blocks, left));
            assert(is_transition(blocks, parent, name, left));
        } else if left != offset {
            assert(is_shape(blocks, left));
            assert(is_shape(blocks, right));
        }
    }
    crate::gc::object::lemma_shapes_do_not_disturb_the_rest(blocks, after);
}

/// How the heap with a new transition in it relates to the heap without.
spec fn is_linked(before: Blocks, after: Blocks, parent: int, offset: int) -> bool {
    &&& is_shape(before, parent)
    &&& shapes_kept(before, after)
    &&& is_shape(after, offset)
    &&& parent < offset <= u32::MAX
    &&& forall|other: int| #[trigger] is_shape(before, other) ==> other < offset
    &&& forall|other: int|
        other != offset ==> (#[trigger] is_shape(after, other) == is_shape(before, other))
    &&& forall|other: int|
        other != parent && #[trigger] is_shape(before, other) ==> child_of(after, other)
            == child_of(before, other)
    &&& child_of(after, parent) == Slot::of_target(offset)
    &&& count_of(after, offset) == count_of(before, parent) + 1
    &&& name_of(after, offset).points()
    &&& parent_of(after, offset) == Slot::of_target(parent)
    &&& !child_of(after, offset).points()
    &&& sibling_of(after, offset) == child_of(before, parent)
    &&& prototype_of(after, offset) == prototype_of(before, parent)
}

proof fn lemma_links(blocks: Blocks, parent: int, name: Slot, offset: int, node: Block)
    requires
        is_shape(blocks, parent),
        name.points(),
        !blocks.contains_key(offset),
        parent < offset <= u32::MAX,
        offset % 8 == 0,
        forall|other: int| #[trigger] blocks.contains_key(other) ==> other < offset,
        count_of(blocks, parent) < u32::MAX,
        node.kind == ObjectKind::Shape,
        node.bytes.len() == 28,
        u32_at(node.bytes, 0) == 8,
        u32_at(node.bytes, 4) == count_of(blocks, parent) + 1,
        u32_at(node.bytes, 8) == name.0,
        u32_at(node.bytes, 12) == Slot::of_target(parent).0,
        u32_at(node.bytes, 16) == 0,
        u32_at(node.bytes, 20) == child_of(blocks, parent).0,
        u32_at(node.bytes, 24) == prototype_of(blocks, parent).0,
    ensures
        is_linked(blocks, linked(blocks, parent, offset, node), parent, offset),
        name_of(linked(blocks, parent, offset, node), offset) == name,
        crate::gc::object::same_but_for_shapes(blocks, linked(blocks, parent, offset, node)),
{
    broadcast use group_words;

    let after = linked(blocks, parent, offset, node);
    assert(after[parent].bytes.len() == blocks[parent].bytes.len());
    assert forall|other: int| other != offset implies (#[trigger] is_shape(after, other) == is_shape(
        blocks,
        other,
    )) by {}
}

proof fn lemma_linked_nodes_fit(
    before: Blocks,
    after: Blocks,
    parent: int,
    offset: int,
    other: int,
)
    requires
        shapes_hold(before),
        is_linked(before, after, parent, offset),
        is_shape(after, other),
    ensures
        node_fits(after, other),
{
    lemma_node(before, parent);
    if other == offset {
        reveal(node_fits);
    } else if other == parent {
        reveal(node_fits);
    } else {
        assert(is_shape(before, other));
        lemma_a_node_still_fits(before, after, other);
    }
}

proof fn lemma_linked_nodes_are_on_their_chain(
    before: Blocks,
    after: Blocks,
    parent: int,
    offset: int,
    other: int,
)
    requires
        shapes_hold(before),
        is_linked(before, after, parent, offset),
        is_shape(after, other),
        count_of(after, other) > 0,
    ensures
        chain_reaches(after, child_of(after, parent_of(after, other).target()), other),
{
    if other != offset {
        assert(is_shape(before, other));
        lemma_node(before, other);
        let above = parent_of(before, other).target();
        if above == parent {
            lemma_chain_start(before, child_of(before, parent), other);
            lemma_chains_are_kept(before, after, child_of(before, parent), other);
            lemma_chain_grows(after, Slot::of_target(offset), other);
        } else {
            lemma_a_node_is_still_on_its_chain(before, after, other);
        }
    } else {
        lemma_chain_grows(after, Slot::of_target(offset), offset);
    }
}

/// Two shapes under one root with the same names in the same order are one shape. Nothing compares
/// property lists: both walks arrive at the same node.
pub proof fn law_the_same_names_in_the_same_order_reach_one_shape(
    blocks: Blocks,
    left: int,
    right: int,
)
    requires
        shapes_hold(blocks),
        is_shape(blocks, left),
        is_shape(blocks, right),
        root_of(blocks, left) == root_of(blocks, right),
        names_of(blocks, left) == names_of(blocks, right),
    ensures
        left == right,
    decreases count_of(blocks, left),
{
    lemma_count_is_the_number_of_names(blocks, left);
    lemma_count_is_the_number_of_names(blocks, right);
    lemma_node(blocks, left);
    lemma_node(blocks, right);
    if count_of(blocks, left) > 0 {
        let up = parent_of(blocks, left).target();
        let across = parent_of(blocks, right).target();
        let names = names_of(blocks, left);
        assert(names_of(blocks, up) =~= names.drop_last());
        assert(names_of(blocks, across) =~= names.drop_last());
        law_the_same_names_in_the_same_order_reach_one_shape(blocks, up, across);
        assert(names.last() == name_of(blocks, left));
        assert(names.last() == name_of(blocks, right));
    }
}

/// Every shape of a tree inherits from what its root inherits from.
pub proof fn law_a_tree_shares_one_prototype(blocks: Blocks, offset: int)
    requires
        shapes_hold(blocks),
        is_shape(blocks, offset),
    ensures
        is_shape(blocks, root_of(blocks, offset)),
        count_of(blocks, root_of(blocks, offset)) == 0,
        prototype_of(blocks, offset) == prototype_of(blocks, root_of(blocks, offset)),
    decreases count_of(blocks, offset),
{
    lemma_node(blocks, offset);
    if count_of(blocks, offset) > 0 {
        law_a_tree_shares_one_prototype(blocks, parent_of(blocks, offset).target());
    }
}

/// A name that is added goes last, and every other name stays where it was.
pub proof fn law_adding_a_name_moves_no_other(names: Seq<Slot>, name: Slot, other: Slot)
    ensures
        last_index(names.push(name), name) == Some(names.len() as int),
        other != name ==> last_index(names.push(name), other) == last_index(names, other),
{
    assert(names.push(name).drop_last() =~= names);
}

} // verus!
