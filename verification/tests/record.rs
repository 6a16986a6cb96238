//! Records.

use katsu::gc::bump::{BumpHeap, ObjectKind};
use katsu::gc::cage::{Slot, CAGE_SIZE, Reservation};
use katsu::gc::object::HeapKind;
use katsu::gc::record::{values_offset, RECORD_HEADER_SIZE, RECORD_VALUE_SIZE, RecordRef};
use katsu::gc::string::StringRef;

/// A place in the address space for a cage.
const PLACE: Reservation = Reservation { base: CAGE_SIZE, page: 4096 };

fn heap() -> BumpHeap {
    BumpHeap::new(PLACE).expect("should reserve a cage")
}

fn name(heap: &mut BumpHeap, text: &str) -> StringRef {
    StringRef::from_str(heap, text).expect("should have room")
}

#[test]
fn a_record_is_a_kind_of_its_own() {
    let mut heap = heap();
    let log = name(&mut heap, "log");
    let record = RecordRef::new(&mut heap, &[(log, 7)]).expect("should have room");
    assert_eq!(
        HeapKind::of(heap.cage(), record.slot()),
        Some(HeapKind::Record)
    );
}

#[test]
fn a_name_that_was_put_in_comes_back_out() {
    let mut heap = heap();
    let log = name(&mut heap, "log");
    let error = name(&mut heap, "error");
    let record =
        RecordRef::new(&mut heap, &[(log, 11), (error, 22)]).expect("should have room");
    assert_eq!(record.len(heap.cage()), 2);
    assert_eq!(record.get(heap.cage(), log), Some(11));
    assert_eq!(record.get(heap.cage(), error), Some(22));
}

#[test]
fn a_name_that_was_never_put_in_is_absent_rather_than_wrong() {
    let mut heap = heap();
    let log = name(&mut heap, "log");
    let missing = name(&mut heap, "table");
    let record = RecordRef::new(&mut heap, &[(log, 11)]).expect("should have room");
    assert_eq!(record.get(heap.cage(), missing), None);
}

#[test]
fn two_strings_with_the_same_text_are_two_different_names() {
    // The scan compares addresses, so an uninterned lookup key misses even when the text
    // matches. This is the failure mode the module documentation warns about, pinned here so
    // that it is a documented rule rather than a surprise.
    let mut heap = heap();
    let interned = name(&mut heap, "log");
    let copy = name(&mut heap, "log");
    let record = RecordRef::new(&mut heap, &[(interned, 11)]).expect("should have room");
    assert_eq!(record.get(heap.cage(), interned), Some(11));
    assert_eq!(record.get(heap.cage(), copy), None);
}

#[test]
fn the_entries_can_be_walked_in_order() {
    let mut heap = heap();
    let first = name(&mut heap, "log");
    let second = name(&mut heap, "error");
    let record =
        RecordRef::new(&mut heap, &[(first, 11), (second, 22)]).expect("should have room");
    assert_eq!(
        record.name_at(heap.cage(), 0).map(StringRef::slot),
        Some(first.slot())
    );
    assert_eq!(
        record.name_at(heap.cage(), 1).map(StringRef::slot),
        Some(second.slot())
    );
    assert_eq!(record.value_at(heap.cage(), 1), Some(22));
    assert_eq!(record.name_at(heap.cage(), 2), None);
    assert_eq!(record.value_at(heap.cage(), 2), None);
}

#[test]
fn a_property_that_exists_can_be_written_and_one_that_does_not_cannot() {
    let mut heap = heap();
    let log = name(&mut heap, "log");
    let missing = name(&mut heap, "table");
    let record = RecordRef::new(&mut heap, &[(log, 11)]).expect("should have room");
    assert!(record.set(&mut heap, log, 33));
    assert_eq!(record.get(heap.cage(), log), Some(33));
    assert!(!record.set(&mut heap, missing, 44));
}

#[test]
fn an_empty_record_is_legal_and_holds_nothing() {
    let mut heap = heap();
    let record = RecordRef::new(&mut heap, &[]).expect("should have room");
    assert!(record.is_empty(heap.cage()));
    assert_eq!(record.name_at(heap.cage(), 0), None);
}

#[test]
fn a_record_wastes_at_most_four_bytes_and_only_on_an_odd_count() {
    // The layout claim from the module documentation, checked rather than asserted in prose.
    // Two names cost the header, two slots and two values with nothing left over.
    assert_eq!(values_offset(0), RECORD_HEADER_SIZE);
    assert_eq!(values_offset(1), RECORD_HEADER_SIZE + RECORD_VALUE_SIZE);
    assert_eq!(values_offset(2), RECORD_HEADER_SIZE + 2 * 4);
    assert_eq!(values_offset(3), RECORD_HEADER_SIZE + 2 * RECORD_VALUE_SIZE);

    let mut heap = heap();
    let first = name(&mut heap, "log");
    let second = name(&mut heap, "error");
    let before = heap.census().totals(ObjectKind::Object);
    RecordRef::new(&mut heap, &[(first, 11), (second, 22)]).expect("should have room");
    let after = heap.census().totals(ObjectKind::Object);
    assert_eq!(after.count - before.count, 1);
    assert_eq!(after.requested_bytes - before.requested_bytes, 32);
    assert_eq!(after.reserved_bytes - before.reserved_bytes, 32);
}

#[test]
fn a_small_integer_is_not_a_record() {
    assert_eq!(RecordRef::from_slot(Slot::from_smi(3).unwrap()), None);
}
