//! Closures, natives and contexts.

use katsu::gc::bump::{BumpHeap, ObjectKind};
use katsu::gc::cage::{Slot, CAGE_SIZE, Reservation};
use katsu::gc::function::{ClosureRef, ContextRef, NativeRef};
use katsu::gc::object::HeapKind;
use katsu::gc::string::StringRef;

/// A place in the address space for a cage.
const PLACE: Reservation = Reservation { base: CAGE_SIZE, page: 4096 };

fn heap() -> BumpHeap {
    BumpHeap::new(PLACE).expect("should reserve a cage")
}

/// The hole, spelled the way the value encoding spells it, so the tests do not depend on it.
const EMPTY: u64 = 0;

#[test]
fn a_string_still_reads_as_a_string_without_anybody_writing_a_tag() {
    // The whole reason zero means string. Nothing in the string allocator was changed to make
    // this pass, and if that ever stops being true this test is where it shows up.
    let mut heap = heap();
    let string = StringRef::from_str(&mut heap, "katsu").expect("should have room");
    assert_eq!(
        HeapKind::of(heap.cage(), string.slot()),
        Some(HeapKind::String)
    );
}

#[test]
fn the_four_kinds_are_told_apart() {
    let mut heap = heap();
    let string = StringRef::from_str(&mut heap, "katsu").expect("should have room");
    let context = ContextRef::new(&mut heap, None, 2, EMPTY).expect("should have room");
    let closure = ClosureRef::new(&mut heap, 7, Some(context), None).expect("should have room");
    let native = NativeRef::new(&mut heap, 3).expect("should have room");
    assert_eq!(
        HeapKind::of(heap.cage(), string.slot()),
        Some(HeapKind::String)
    );
    assert_eq!(
        HeapKind::of(heap.cage(), context.slot()),
        Some(HeapKind::Context)
    );
    assert_eq!(
        HeapKind::of(heap.cage(), closure.slot()),
        Some(HeapKind::Closure)
    );
    assert_eq!(
        HeapKind::of(heap.cage(), native.slot()),
        Some(HeapKind::Native)
    );
}

#[test]
fn a_native_remembers_which_entry_it_calls() {
    let mut heap = heap();
    let first = NativeRef::new(&mut heap, 0).expect("should have room");
    let later = NativeRef::new(&mut heap, 41).expect("should have room");
    assert_eq!(first.ordinal(heap.cage()), 0);
    assert_eq!(later.ordinal(heap.cage()), 41);
}

#[test]
fn a_native_costs_eight_bytes_and_wastes_none_of_them() {
    // The smallest object this heap can hand out, and the reason the name and the code pointer
    // are both in the table rather than in here. If this ever needs a third word, the tradeoff
    // in the doc above has to be made again rather than assumed.
    let mut heap = heap();
    NativeRef::new(&mut heap, 0).expect("should have room");
    let totals = heap.census().totals(ObjectKind::Native);
    assert_eq!(totals.count, 1);
    assert_eq!(totals.requested_bytes, 8);
    assert_eq!(totals.reserved_bytes, 8);
}

#[test]
fn a_small_integer_is_not_a_pointer_and_has_no_kind() {
    let heap = heap();
    let slot = Slot::from_smi(41).expect("fits");
    assert_eq!(HeapKind::of(heap.cage(), slot), None);
}

#[test]
fn a_closure_carries_its_own_name_so_it_can_be_printed_without_its_unit() {
    let mut heap = heap();
    let name = StringRef::from_str(&mut heap, "greet").expect("should have room");
    let named = ClosureRef::new(&mut heap, 0, None, Some(name)).expect("should have room");
    let anonymous = ClosureRef::new(&mut heap, 0, None, None).expect("should have room");
    assert_eq!(named.name(heap.cage()), Some(name));
    assert_eq!(anonymous.name(heap.cage()), None);
}

#[test]
fn a_closure_remembers_its_function_and_what_it_captured() {
    let mut heap = heap();
    let context = ContextRef::new(&mut heap, None, 1, EMPTY).expect("should have room");
    let closure = ClosureRef::new(&mut heap, 3, Some(context), None).expect("should have room");
    assert_eq!(closure.function(heap.cage()), 3);
    assert_eq!(closure.captured(heap.cage()), Some(context));
}

#[test]
fn a_closure_over_nothing_says_so_rather_than_pointing_at_the_bottom_of_the_cage() {
    // Zero in the captured field has to mean nothing captured, not the object at offset zero.
    // A pointer slot always has its low bit set, so the two can never collide, and this is the
    // test that says so.
    let mut heap = heap();
    let first = ContextRef::new(&mut heap, None, 1, EMPTY).expect("should have room");
    assert_ne!(first.slot().to_bits(), 0);
    let closure = ClosureRef::new(&mut heap, 0, None, None).expect("should have room");
    assert_eq!(closure.captured(heap.cage()), None);
}

#[test]
fn a_cell_holds_what_was_written_into_it() {
    let mut heap = heap();
    let context = ContextRef::new(&mut heap, None, 3, EMPTY).expect("should have room");
    assert_eq!(context.len(heap.cage()), 3);
    assert!(context.set_cell(&mut heap, 1, 0x4000_0000_0000_0001));
    assert_eq!(context.cell(heap.cage(), 0), Some(EMPTY));
    assert_eq!(context.cell(heap.cage(), 1), Some(0x4000_0000_0000_0001));
    assert_eq!(context.cell(heap.cage(), 2), Some(EMPTY));
}

#[test]
fn every_cell_starts_as_the_hole_rather_than_as_zero() {
    // Zeroed memory is a perfectly good double, so a context that left its cells at zero would
    // answer a dead zone check with the number zero instead of with the hole.
    let mut heap = heap();
    let context = ContextRef::new(&mut heap, None, 4, 0xDEAD_BEEF).expect("should have room");
    for index in 0..4 {
        assert_eq!(context.cell(heap.cage(), index), Some(0xDEAD_BEEF));
    }
}

#[test]
fn a_cell_past_the_end_is_refused_rather_than_read_out_of_the_next_object() {
    let mut heap = heap();
    let context = ContextRef::new(&mut heap, None, 2, EMPTY).expect("should have room");
    let after = ContextRef::new(&mut heap, None, 2, 0x1111).expect("should have room");
    assert_eq!(context.cell(heap.cage(), 2), None);
    assert!(!context.set_cell(&mut heap, 9, 0x2222));
    assert_eq!(after.cell(heap.cage(), 0), Some(0x1111));
}

#[test]
fn the_chain_of_parents_walks_outwards() {
    let mut heap = heap();
    let outer = ContextRef::new(&mut heap, None, 1, EMPTY).expect("should have room");
    let middle = ContextRef::new(&mut heap, Some(outer), 1, EMPTY).expect("should have room");
    let inner = ContextRef::new(&mut heap, Some(middle), 1, EMPTY).expect("should have room");
    assert_eq!(inner.parent(heap.cage()), Some(middle));
    assert_eq!(middle.parent(heap.cage()), Some(outer));
    assert_eq!(outer.parent(heap.cage()), None);
}

#[test]
fn contexts_and_closures_land_in_their_own_census_lines() {
    // The census exists so that the memory budget can be read line by line, and a new kind of
    // object that counted itself as something else would make that reading wrong.
    let mut heap = heap();
    ContextRef::new(&mut heap, None, 1, EMPTY).expect("should have room");
    ClosureRef::new(&mut heap, 0, None, None).expect("should have room");
    assert_eq!(heap.census().totals(ObjectKind::Closure).count, 1);
    assert_eq!(heap.census().totals(ObjectKind::Context).count, 1);
    assert_eq!(heap.census().totals(ObjectKind::String).count, 0);
    // Twenty four bytes for the context, which is sixteen of header and one eight byte cell,
    // and sixteen for the closure with no alignment tax on either.
    assert_eq!(heap.census().totals(ObjectKind::Context).reserved_bytes, 24);
    assert_eq!(
        heap.census().totals(ObjectKind::Closure).requested_bytes,
        16
    );
    assert_eq!(heap.census().totals(ObjectKind::Closure).reserved_bytes, 16);
}
