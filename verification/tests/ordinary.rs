//! Ordinary objects.

use katsu::gc::bump::{BumpHeap, ObjectKind};
use katsu::gc::cage::{Slot, CAGE_SIZE, Reservation};
use katsu::gc::object::HeapKind;
use katsu::gc::ordinary::{FIRST_OVERFLOW, HEADER_SIZE, ObjectRef, PROPERTIES_HEADER, VALUE_SIZE};
use katsu::gc::shape::ShapeRef;
use katsu::gc::string::StringRef;

/// A place in the address space for a cage.
const PLACE: Reservation = Reservation { base: CAGE_SIZE, page: 4096 };

fn heap() -> BumpHeap {
    BumpHeap::new(PLACE).expect("should reserve a cage")
}

fn name(heap: &mut BumpHeap, text: &str) -> StringRef {
    StringRef::from_str(heap, text).expect("should have room")
}

fn empty(heap: &mut BumpHeap, inline: u32) -> ObjectRef {
    let root = ShapeRef::root(heap, None).expect("should have room");
    ObjectRef::new(heap, root, inline).expect("should have room")
}

fn texts(heap: &BumpHeap, object: ObjectRef) -> Vec<String> {
    object
        .names(heap.cage())
        .into_iter()
        .map(|name| name.to_utf8_lossy(heap.cage()))
        .collect()
}

#[test]
fn an_object_is_told_apart_by_having_a_shape_where_a_tag_would_be() {
    let mut heap = heap();
    let object = empty(&mut heap, 0);
    assert_eq!(
        HeapKind::of(heap.cage(), object.slot()),
        Some(HeapKind::Object)
    );
    assert!(object.is_empty(heap.cage()));
}

#[test]
fn a_property_that_was_put_in_comes_back_out() {
    let mut heap = heap();
    let object = empty(&mut heap, 2);
    let x = name(&mut heap, "x");
    let y = name(&mut heap, "y");
    object.set(&mut heap, x, 11).expect("should have room");
    object.set(&mut heap, y, 22).expect("should have room");
    assert_eq!(object.get(heap.cage(), x), Some(11));
    assert_eq!(object.get(heap.cage(), y), Some(22));
    assert_eq!(object.len(heap.cage()), 2);
}

#[test]
fn a_property_that_was_never_put_in_is_absent_rather_than_wrong() {
    let mut heap = heap();
    let object = empty(&mut heap, 1);
    let x = name(&mut heap, "x");
    let missing = name(&mut heap, "nope");
    object.set(&mut heap, x, 11).expect("should have room");
    assert_eq!(object.get(heap.cage(), missing), None);
}

#[test]
fn writing_a_property_twice_replaces_it_rather_than_adding_it() {
    let mut heap = heap();
    let object = empty(&mut heap, 1);
    let x = name(&mut heap, "x");
    object.set(&mut heap, x, 11).expect("should have room");
    let shape = object.shape(heap.cage());
    object.set(&mut heap, x, 33).expect("should have room");
    assert_eq!(object.get(heap.cage(), x), Some(33));
    assert_eq!(object.len(heap.cage()), 1);
    assert_eq!(
        object.shape(heap.cage()),
        shape,
        "an assignment to a property that exists is not a transition"
    );
}

#[test]
fn an_object_grows_past_the_room_it_was_built_with() {
    // The thing a record could not do, which is the reason it stopped existing. The object is
    // built with no inline room at all, so every one of these goes to the overflow array and the
    // array itself has to grow twice on the way.
    let mut heap = heap();
    let object = empty(&mut heap, 0);
    let names: Vec<StringRef> = (0..12)
        .map(|index| name(&mut heap, &format!("p{index}")))
        .collect();
    for (index, &name) in names.iter().enumerate() {
        object
            .set(&mut heap, name, index as u64)
            .expect("should have room");
    }
    for (index, &name) in names.iter().enumerate() {
        assert_eq!(object.get(heap.cage(), name), Some(index as u64));
    }
    assert_eq!(object.len(heap.cage()), 12);
    assert_eq!(
        heap.census().totals(ObjectKind::Properties).count,
        3,
        "room for four, then eight, then sixteen"
    );
}

#[test]
fn the_properties_that_fit_inside_stay_inside_when_the_object_grows() {
    // The inline slots are not abandoned when the overflow array appears, because the point of
    // them is that reading them is one load, and copying them out would give that up for every
    // object that ever gains one property too many.
    let mut heap = heap();
    let object = empty(&mut heap, 2);
    let names: Vec<StringRef> = (0..5)
        .map(|index| name(&mut heap, &format!("p{index}")))
        .collect();
    for (index, &name) in names.iter().enumerate() {
        object
            .set(&mut heap, name, 100 + index as u64)
            .expect("should have room");
    }
    assert_eq!(
        heap.census().totals(ObjectKind::Properties).count,
        1,
        "two inline slots and one overflow array is all five properties need"
    );
    for (index, &name) in names.iter().enumerate() {
        assert_eq!(object.get(heap.cage(), name), Some(100 + index as u64));
    }
}

#[test]
fn two_objects_built_the_same_way_share_one_shape() {
    let mut heap = heap();
    let root = ShapeRef::root(&mut heap, None).expect("should have room");
    let x = name(&mut heap, "x");
    let y = name(&mut heap, "y");
    let first = ObjectRef::new(&mut heap, root, 2).expect("should have room");
    let second = ObjectRef::new(&mut heap, root, 2).expect("should have room");
    for object in [first, second] {
        object.set(&mut heap, x, 1).expect("should have room");
        object.set(&mut heap, y, 2).expect("should have room");
    }
    assert_eq!(first.shape(heap.cage()), second.shape(heap.cage()));
    assert_ne!(first.slot(), second.slot());
}

#[test]
fn the_properties_can_be_walked_in_the_order_they_were_added() {
    let mut heap = heap();
    let object = empty(&mut heap, 3);
    for (index, text) in ["b", "a", "c"].into_iter().enumerate() {
        let name = name(&mut heap, text);
        object
            .set(&mut heap, name, index as u64)
            .expect("should have room");
    }
    assert_eq!(texts(&heap, object), ["b", "a", "c"]);
    assert_eq!(object.value_at(heap.cage(), 0), Some(0));
    assert_eq!(object.value_at(heap.cage(), 2), Some(2));
    assert_eq!(object.value_at(heap.cage(), 3), None);
}

#[test]
fn an_object_built_with_room_for_its_properties_costs_one_allocation() {
    // What an object literal pays, and the number the memory budget is spent against: a header
    // and one eight byte value per property, with no second object anywhere.
    let mut heap = heap();
    let root = ShapeRef::root(&mut heap, None).expect("should have room");
    let x = name(&mut heap, "x");
    let y = name(&mut heap, "y");
    let before = heap.census().totals(ObjectKind::Object);
    let object = ObjectRef::new(&mut heap, root, 2).expect("should have room");
    object.set(&mut heap, x, 1).expect("should have room");
    object.set(&mut heap, y, 2).expect("should have room");
    let after = heap.census().totals(ObjectKind::Object);
    assert_eq!(after.count - before.count, 1);
    assert_eq!(
        after.reserved_bytes - before.reserved_bytes,
        (HEADER_SIZE + 2 * VALUE_SIZE) as u64
    );
    assert_eq!(
        heap.census().totals(ObjectKind::Properties).count,
        0,
        "an object with room for its properties should never allocate an array"
    );
}

#[test]
fn the_first_overflow_array_holds_more_than_the_one_property_that_caused_it() {
    let mut heap = heap();
    let object = empty(&mut heap, 0);
    let x = name(&mut heap, "x");
    object.set(&mut heap, x, 1).expect("should have room");
    let totals = heap.census().totals(ObjectKind::Properties);
    assert_eq!(totals.count, 1);
    assert_eq!(
        totals.reserved_bytes,
        (PROPERTIES_HEADER + (FIRST_OVERFLOW as usize) * VALUE_SIZE) as u64
    );
}

#[test]
fn a_small_integer_is_not_an_object() {
    assert_eq!(
        ObjectRef::from_slot(Slot::from_smi(3).expect("in range")),
        None
    );
}
