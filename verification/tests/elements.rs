//! Indexed properties.

use katsu::gc::bump::BumpHeap;
use katsu::gc::cage::{Slot, CAGE_SIZE, Reservation};
use katsu::gc::elements::{is_value, ELEMENTS_HEADER, ElementsRef, HOLE, MAX_GAP, NAMED};
use katsu::gc::object::HeapKind;

/// A place in the address space for a cage.
const PLACE: Reservation = Reservation { base: CAGE_SIZE, page: 4096 };

fn heap() -> BumpHeap {
    BumpHeap::new(PLACE).expect("should reserve a cage")
}

#[test]
fn a_fresh_array_is_all_holes_and_nobody_wrote_them() {
    let mut heap = heap();
    let elements = ElementsRef::new(&mut heap, 8).expect("should have room");
    for index in 0..8 {
        assert_eq!(elements.value_at(heap.cage(), index), HOLE);
    }
    assert_eq!(elements.used(heap.cage()), None);
}

#[test]
fn a_value_that_was_put_in_comes_back_out() {
    let mut heap = heap();
    let elements = ElementsRef::new(&mut heap, 4).expect("should have room");
    elements.set(&mut heap, 0, 11);
    elements.set(&mut heap, 3, 44);
    assert_eq!(elements.value_at(heap.cage(), 0), 11);
    assert_eq!(elements.value_at(heap.cage(), 1), HOLE);
    assert_eq!(elements.value_at(heap.cage(), 3), 44);
}

#[test]
fn reading_past_the_end_is_a_hole_rather_than_a_crash() {
    let mut heap = heap();
    let elements = ElementsRef::new(&mut heap, 2).expect("should have room");
    elements.set(&mut heap, 0, 11);
    assert_eq!(elements.value_at(heap.cage(), 2), HOLE);
    assert_eq!(elements.value_at(heap.cage(), u32::MAX), HOLE);
}

#[test]
fn writing_past_the_end_is_refused_rather_than_scribbling() {
    let mut heap = heap();
    let first = ElementsRef::new(&mut heap, 2).expect("should have room");
    let second = ElementsRef::new(&mut heap, 2).expect("should have room");
    first.set(&mut heap, 2, 99);
    first.set(&mut heap, 3, 99);
    assert_eq!(second.value_at(heap.cage(), 0), HOLE);
    assert_eq!(second.value_at(heap.cage(), 1), HOLE);
}

#[test]
fn the_used_length_ignores_the_holes_after_it_and_keeps_the_ones_before() {
    let mut heap = heap();
    let elements = ElementsRef::new(&mut heap, 8).expect("should have room");
    elements.set(&mut heap, 0, 11);
    elements.set(&mut heap, 4, 55);
    assert_eq!(elements.used(heap.cage()), Some(5));
}

#[test]
fn the_two_words_that_are_not_values_are_the_two_smallest_numbers() {
    // The whole point of the pair, because it makes the test on the read path one comparison.
    // If either of these ever moves, `is_value` has to stop being a single `>`.
    assert_eq!(HOLE, 0);
    assert_eq!(NAMED, 1);
    assert!(!is_value(HOLE));
    assert!(!is_value(NAMED));
    assert!(is_value(2));
}

#[test]
fn an_elements_array_is_told_apart_from_everything_else_in_the_cage() {
    let mut heap = heap();
    let elements = ElementsRef::new(&mut heap, 1).expect("should have room");
    assert_eq!(
        HeapKind::of(heap.cage(), elements.slot()),
        Some(HeapKind::Elements)
    );
}

#[test]
fn an_empty_word_is_not_an_elements_array() {
    assert!(ElementsRef::from_slot(Slot::from_bits(0)).is_none());
}

#[test]
fn an_array_costs_its_header_and_its_values_and_nothing_else() {
    let mut heap = heap();
    let before = heap.cursor();
    ElementsRef::new(&mut heap, 4).expect("should have room");
    assert_eq!(heap.cursor() - before, ELEMENTS_HEADER + 4 * 8);
}

#[test]
fn growing_doubles_until_the_index_needs_more() {
    assert_eq!(ElementsRef::grown_for(0, 0), Some(4));
    assert_eq!(ElementsRef::grown_for(4, 4), Some(8));
    assert_eq!(ElementsRef::grown_for(8, 8), Some(16));
    assert_eq!(ElementsRef::grown_for(4, 100), Some(101));
}

#[test]
fn a_gap_wider_than_the_limit_is_not_worth_an_array() {
    assert_eq!(ElementsRef::grown_for(0, MAX_GAP), Some(MAX_GAP + 1));
    assert_eq!(ElementsRef::grown_for(0, MAX_GAP + 1), None);
    assert_eq!(ElementsRef::grown_for(0, u32::MAX), None);
}
