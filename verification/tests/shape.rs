//! The transition tree.

use katsu::gc::bump::{BumpHeap, ObjectKind};
use katsu::gc::cage::{Slot, CAGE_SIZE, Reservation};
use katsu::gc::object::HeapKind;
use katsu::gc::ordinary::ObjectRef;
use katsu::gc::shape::{SHAPE_SIZE, ShapeRef};
use katsu::gc::string::StringRef;

/// A place in the address space for a cage.
const PLACE: Reservation = Reservation { base: CAGE_SIZE, page: 4096 };

fn heap() -> BumpHeap {
    BumpHeap::new(PLACE).expect("should reserve a cage")
}

fn name(heap: &mut BumpHeap, text: &str) -> StringRef {
    StringRef::from_str(heap, text).expect("should have room")
}

fn texts(heap: &BumpHeap, shape: ShapeRef) -> Vec<String> {
    shape
        .names(heap.cage())
        .into_iter()
        .map(|name| name.to_utf8_lossy(heap.cage()))
        .collect()
}

#[test]
fn the_root_is_the_shape_of_an_object_with_nothing_on_it() {
    let mut heap = heap();
    let root = ShapeRef::root(&mut heap, None).expect("should have room");
    assert_eq!(root.count(heap.cage()), 0);
    assert_eq!(root.name(heap.cage()), None);
    assert_eq!(root.parent(heap.cage()), None);
    assert_eq!(
        HeapKind::of(heap.cage(), root.slot()),
        Some(HeapKind::Shape)
    );
}

#[test]
fn adding_a_name_reaches_a_child_that_knows_where_the_name_went() {
    let mut heap = heap();
    let root = ShapeRef::root(&mut heap, None).expect("should have room");
    let x = name(&mut heap, "x");
    let with_x = root.transition(&mut heap, x).expect("should have room");
    assert_eq!(with_x.count(heap.cage()), 1);
    assert_eq!(with_x.index_of(heap.cage(), x), Some(0));
    assert_eq!(root.index_of(heap.cage(), x), None);
    assert_eq!(with_x.parent(heap.cage()), Some(root));
}

#[test]
fn two_objects_built_the_same_way_reach_one_shape() {
    // The property the whole design rests on. Nothing here compares property lists: both walks
    // take the same two edges out of the same root and arrive at the same node.
    let mut heap = heap();
    let root = ShapeRef::root(&mut heap, None).expect("should have room");
    let x = name(&mut heap, "x");
    let y = name(&mut heap, "y");
    let first = root
        .transition(&mut heap, x)
        .and_then(|shape| shape.transition(&mut heap, y))
        .expect("should have room");
    let before = heap.census().totals(ObjectKind::Shape).count;
    let second = root
        .transition(&mut heap, x)
        .and_then(|shape| shape.transition(&mut heap, y))
        .expect("should have room");
    assert_eq!(first, second);
    assert_eq!(
        heap.census().totals(ObjectKind::Shape).count,
        before,
        "the second object should not have allocated a shape"
    );
}

#[test]
fn the_same_names_in_the_other_order_are_a_different_shape() {
    // Insertion order is observable in JavaScript, so it is part of a shape's identity rather
    // than something the representation is free to normalise away.
    let mut heap = heap();
    let root = ShapeRef::root(&mut heap, None).expect("should have room");
    let x = name(&mut heap, "x");
    let y = name(&mut heap, "y");
    let xy = root
        .transition(&mut heap, x)
        .and_then(|shape| shape.transition(&mut heap, y))
        .expect("should have room");
    let yx = root
        .transition(&mut heap, y)
        .and_then(|shape| shape.transition(&mut heap, x))
        .expect("should have room");
    assert_ne!(xy, yx);
    assert_eq!(xy.index_of(heap.cage(), x), Some(0));
    assert_eq!(yx.index_of(heap.cage(), x), Some(1));
}

#[test]
fn one_shape_can_be_the_start_of_several_layouts() {
    // Two programs that build `{a: 1}` and then add different second properties share the work
    // of the first property and diverge at the second, which is what the tree is for.
    let mut heap = heap();
    let root = ShapeRef::root(&mut heap, None).expect("should have room");
    let a = name(&mut heap, "a");
    let b = name(&mut heap, "b");
    let c = name(&mut heap, "c");
    let with_a = root.transition(&mut heap, a).expect("should have room");
    let ab = with_a.transition(&mut heap, b).expect("should have room");
    let ac = with_a.transition(&mut heap, c).expect("should have room");
    assert_ne!(ab, ac);
    assert_eq!(ab.parent(heap.cage()), Some(with_a));
    assert_eq!(ac.parent(heap.cage()), Some(with_a));
    assert_eq!(texts(&heap, ab), ["a", "b"]);
    assert_eq!(texts(&heap, ac), ["a", "c"]);
}

#[test]
fn the_names_come_back_in_the_order_they_were_added() {
    let mut heap = heap();
    let root = ShapeRef::root(&mut heap, None).expect("should have room");
    let mut shape = root;
    for text in ["first", "second", "third"] {
        let name = name(&mut heap, text);
        shape = shape.transition(&mut heap, name).expect("should have room");
    }
    assert_eq!(texts(&heap, shape), ["first", "second", "third"]);
    assert_eq!(texts(&heap, root), Vec::<String>::new());
}

#[test]
fn a_name_that_was_never_added_is_absent_rather_than_wrong() {
    let mut heap = heap();
    let root = ShapeRef::root(&mut heap, None).expect("should have room");
    let x = name(&mut heap, "x");
    let missing = name(&mut heap, "nope");
    let with_x = root.transition(&mut heap, x).expect("should have room");
    assert_eq!(with_x.index_of(heap.cage(), missing), None);
}

#[test]
fn a_shape_costs_one_object_and_thirty_two_bytes() {
    // The layout claim from the field list, checked rather than asserted in prose, because the
    // per shape cost is what decides whether a program with many small layouts is affordable.
    // Twenty eight of fields and four of alignment padding, which is the price of the prototype
    // word and is paid once per layout rather than once per object.
    let mut heap = heap();
    let before = heap.census().totals(ObjectKind::Shape);
    let root = ShapeRef::root(&mut heap, None).expect("should have room");
    let x = name(&mut heap, "x");
    root.transition(&mut heap, x).expect("should have room");
    let after = heap.census().totals(ObjectKind::Shape);
    assert_eq!(after.count - before.count, 2);
    assert_eq!(after.requested_bytes - before.requested_bytes, 2 * 28);
    assert_eq!(after.reserved_bytes - before.reserved_bytes, 2 * 32);
    assert_eq!(SHAPE_SIZE, 28);
}

#[test]
fn a_root_remembers_what_its_objects_inherit_from() {
    let mut heap = heap();
    let bare = ShapeRef::root(&mut heap, None).expect("should have room");
    assert_eq!(bare.prototype(heap.cage()), None);
    let above = ObjectRef::new(&mut heap, bare, 0).expect("should have room");
    let root = ShapeRef::root(&mut heap, Some(above)).expect("should have room");
    assert_eq!(root.prototype(heap.cage()), Some(above));
}

#[test]
fn adding_a_property_does_not_change_what_an_object_inherits_from() {
    // The reason this is worth a test of its own: the transition copies the prototype down, and
    // if it ever stopped doing that, every object would silently lose its prototype on its
    // first property and the failure would look like a lookup bug rather than a transition bug.
    let mut heap = heap();
    let bare = ShapeRef::root(&mut heap, None).expect("should have room");
    let above = ObjectRef::new(&mut heap, bare, 0).expect("should have room");
    let root = ShapeRef::root(&mut heap, Some(above)).expect("should have room");
    let mut shape = root;
    for text in ["a", "b", "c"] {
        let name = name(&mut heap, text);
        shape = shape.transition(&mut heap, name).expect("should have room");
    }
    assert_eq!(shape.prototype(heap.cage()), Some(above));
}

#[test]
fn the_same_layout_over_two_prototypes_is_two_shapes() {
    // What makes a shape check enough to guard an inherited property. If these two shared a
    // node, an inline cache that had seen the first would happily read through the second and
    // find the wrong prototype's property.
    let mut heap = heap();
    let bare = ShapeRef::root(&mut heap, None).expect("should have room");
    let first = ObjectRef::new(&mut heap, bare, 0).expect("should have room");
    let second = ObjectRef::new(&mut heap, bare, 0).expect("should have room");
    let x = name(&mut heap, "x");
    let one = ShapeRef::root(&mut heap, Some(first))
        .and_then(|root| root.transition(&mut heap, x))
        .expect("should have room");
    let two = ShapeRef::root(&mut heap, Some(second))
        .and_then(|root| root.transition(&mut heap, x))
        .expect("should have room");
    assert_ne!(one, two);
    assert_eq!(one.index_of(heap.cage(), x), two.index_of(heap.cage(), x));
    assert_eq!(one.prototype(heap.cage()), Some(first));
    assert_eq!(two.prototype(heap.cage()), Some(second));
}

#[test]
fn a_small_integer_is_not_a_shape() {
    assert_eq!(
        ShapeRef::from_slot(Slot::from_smi(3).expect("in range")),
        None
    );
}
