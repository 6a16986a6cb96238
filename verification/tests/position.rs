//! Source positions.

use katsu::ir::position::SourcePositions;

#[test]
fn an_instruction_gets_the_position_that_was_recorded_for_it() {
    let mut positions = SourcePositions::default();
    positions.record(0, 10);
    positions.record(3, 25);

    assert_eq!(positions.offset_at(0), Some(10));
    assert_eq!(positions.offset_at(3), Some(25));
}

#[test]
fn an_instruction_between_two_entries_belongs_to_the_earlier_one() {
    // This is the whole point of the table. One expression lowers to several instructions and
    // they all report the position of the expression, without an entry each.
    let mut positions = SourcePositions::default();
    positions.record(0, 10);
    positions.record(4, 25);

    assert_eq!(positions.offset_at(1), Some(10));
    assert_eq!(positions.offset_at(3), Some(10));
    assert_eq!(positions.offset_at(4), Some(25));
    assert_eq!(positions.offset_at(99), Some(25));
}

#[test]
fn a_run_of_instructions_at_one_position_is_one_entry() {
    let mut positions = SourcePositions::default();
    for instruction in 0..20 {
        positions.record(instruction, 7);
    }
    assert_eq!(positions.len(), 1);
    assert_eq!(positions.offset_at(19), Some(7));
}

#[test]
fn a_position_that_moves_backwards_is_still_an_entry() {
    // A loop back edge belongs to the top of the loop, which is earlier in the source than the
    // instruction before it, so the table is sorted by instruction and not by offset.
    let mut positions = SourcePositions::default();
    positions.record(0, 5);
    positions.record(1, 40);
    positions.record(2, 5);

    assert_eq!(positions.len(), 3);
    assert_eq!(positions.offset_at(2), Some(5));
}

#[test]
fn nothing_recorded_means_no_answer_rather_than_a_wrong_one() {
    let positions = SourcePositions::default();
    assert!(positions.is_empty());
    assert_eq!(positions.offset_at(0), None);
}

#[test]
fn recording_the_same_instruction_twice_keeps_the_later_answer() {
    let mut positions = SourcePositions::default();
    positions.record(0, 10);
    positions.record(0, 20);

    assert_eq!(positions.len(), 1);
    assert_eq!(positions.offset_at(0), Some(20));
}
