//! What the heap promises as a whole, on concrete values.

use std::cmp::Ordering;

use katsu::gc::atom::AtomTable;
use katsu::gc::bump::{BumpHeap, ObjectKind, COMMIT_CHUNK};
use katsu::gc::cage::{Cage, CageError, ReservationError, CAGE_SIZE, SMI_MAX, SMI_MIN, Slot, Reservation};
use katsu::gc::collector::{Collector, GcReason};
use katsu::gc::elements::{ElementsRef, FIRST_ELEMENTS, HOLE, MAX_GAP, NAMED};
use katsu::gc::function::{ClosureRef, ContextRef, NativeRef};
use katsu::gc::object::HeapKind;
use katsu::gc::ordinary::ObjectRef;
use katsu::gc::record::{values_offset, RecordRef};
use katsu::gc::shape::ShapeRef;
use katsu::gc::string::{hash_str, StringRef};

/// A place in the address space for a cage.
const PLACE: Reservation = Reservation { base: CAGE_SIZE, page: 4096 };

fn heap() -> BumpHeap {
    BumpHeap::new(PLACE).expect("should make a heap")
}

fn text(heap: &mut BumpHeap, text: &str) -> StringRef {
    StringRef::from_str(heap, text).expect("should have room")
}

#[test]
fn an_offset_survives_a_trip_through_an_address_at_both_ends() {
    let cage = Cage::new(PLACE).expect("should make a cage");
    for offset in [0, 8, 0x1234_5678, u32::MAX] {
        assert_eq!(cage.address_of(offset), cage.base() + u64::from(offset));
        assert_eq!(cage.offset_of(cage.address_of(offset)), Some(offset));
    }
    assert_eq!(cage.offset_of(cage.base() - 1), None);
    assert_eq!(cage.offset_of(cage.base() + CAGE_SIZE), None);
}

#[test]
fn a_range_outside_the_cage_is_refused_by_its_numbers() {
    let mut cage = Cage::new(PLACE).expect("should make a cage");
    let refused = cage.commit_range(8, CAGE_SIZE + 1).expect_err("past the end");
    assert_eq!(
        refused,
        CageError::Reserve(ReservationError::OutOfBounds {
            offset: 8,
            len: CAGE_SIZE - 7,
            size: CAGE_SIZE
        })
    );
    assert_eq!(
        refused.to_string(),
        "could not reserve the 4294967296 byte cage: 4294967289 bytes at 8 are not inside the 4294967296 byte region"
    );
    let backwards = cage.decommit_from(16, 8).expect_err("backwards");
    assert_eq!(
        backwards,
        CageError::Reserve(ReservationError::OutOfBounds { offset: 16, len: 0, size: CAGE_SIZE })
    );
    let narrow = CageError::Reserve(ReservationError::AddressSpace { size: 12 });
    assert_eq!(
        narrow.to_string(),
        "could not reserve the 4294967296 byte cage: addresses here cannot span 12 bytes"
    );
}

#[test]
fn what_is_decommitted_reads_as_zero_when_it_comes_back() {
    let mut cage = Cage::new(PLACE).expect("should make a cage");
    cage.commit_range(0, 8192).expect("should commit");
    cage.write_byte(10, 7);
    cage.write_byte(5000, 9);
    cage.decommit_from(4096, 8192).expect("should decommit");
    cage.commit_range(4096, 8192).expect("should commit again");
    assert_eq!(cage.read_byte(10), 7);
    assert_eq!(cage.read_byte(5000), 0);
}

#[test]
fn a_range_is_made_readable_where_it_is_and_rounded_out_to_pages() {
    let mut cage = Cage::new(PLACE).expect("should make a cage");
    cage.commit_range(65536, 2 * 65536).expect("should commit");
    cage.write_byte(65536, 1);
    cage.write_byte(2 * 65536 - 1, 2);
    cage.commit_range(4097, 4098).expect("should commit");
    assert_eq!(cage.read_byte(4096), 0);
    assert_eq!(cage.read_byte(8191), 0);
    cage.commit_range(0, 2 * 65536).expect("should commit");
    assert_eq!(cage.read_byte(0), 0);
    assert_eq!(cage.read_byte(65536), 1);
    assert_eq!(cage.read_byte(2 * 65536 - 1), 2);
}

#[test]
fn integers_and_offsets_share_a_slot_without_being_mistaken_for_each_other() {
    for n in [SMI_MIN, -1, 0, 1, SMI_MAX] {
        let slot = Slot::from_smi(n).expect("should fit");
        assert_eq!(slot.as_smi(), Some(n));
        assert_eq!(slot.as_offset(), None);
        assert_eq!(Slot::from_bits(slot.to_bits()), slot);
    }
    assert_eq!(Slot::from_smi(SMI_MAX).map(Slot::to_bits), Some(0x7FFF_FFFE));
    assert_eq!(Slot::from_smi(SMI_MIN).map(Slot::to_bits), Some(0x8000_0000));
    assert_eq!(Slot::from_offset(0x20).to_bits(), 0x21);
    assert_eq!(Slot::from_offset(0x20).as_smi(), None);
}

#[test]
fn the_census_adds_up_to_what_the_cursor_moved_by() {
    let mut heap = heap();
    for (size, kind) in [(3, ObjectKind::String), (8, ObjectKind::Shape), (20, ObjectKind::Object)] {
        heap.allocate(size, kind).expect("should have room");
    }
    let census = heap.census();
    assert_eq!(census.allocation_count, 3);
    assert_eq!(census.allocated_bytes, 8 + 8 + 24);
    assert_eq!(census.padding_bytes, 5 + 4);
    assert_eq!(heap.cursor(), 40);
    let sum: u64 = ObjectKind::all().iter().map(|kind| census.totals(*kind).reserved_bytes).sum();
    assert_eq!(sum, census.allocated_bytes);
    assert_eq!(census.committed_bytes, COMMIT_CHUNK);
}

#[test]
fn a_census_report_is_a_table_with_a_line_for_every_category() {
    let mut heap = heap();
    heap.allocate(10, ObjectKind::String).expect("should have room");
    let expected = [
        "kind              count      requested       reserved",
        "objects               0              0              0",
        "elements              0              0              0",
        "strings               1             10             16",
        "closures              0              0              0",
        "natives               0              0              0",
        "contexts              0              0              0",
        "shapes                0              0              0",
        "properties            0              0              0",
        "other                 0              0              0",
        "total                 1                            16",
        "committed 65536 bytes in 1 commits, 6 bytes lost to alignment",
        "",
    ]
    .join("\n");
    assert_eq!(heap.census().report(), expected);
}

#[test]
fn reserving_past_the_cage_is_refused_and_changes_nothing() {
    let mut heap = heap();
    heap.reserve(CAGE_SIZE as usize + 1).expect_err("past the end");
    assert_eq!(heap.reserved_bytes(), 0);
    heap.reserve(COMMIT_CHUNK + 1).expect("should have room");
    assert_eq!(heap.reserved_bytes(), 2 * COMMIT_CHUNK);
    assert_eq!(heap.cursor(), 0);
    assert!(heap.try_allocate(0).is_none());
    assert_eq!(heap.collect(GcReason::Idle).live_bytes, 0);
}

#[test]
fn the_first_word_says_what_is_there() {
    let mut heap = heap();
    let name = text(&mut heap, "name");
    let shape = ShapeRef::root(&mut heap, None).expect("should have room");
    let object = ObjectRef::new(&mut heap, shape, 2).expect("should have room");
    let elements = ElementsRef::new(&mut heap, 2).expect("should have room");
    let record = RecordRef::new(&mut heap, &[(name, 5)]).expect("should have room");
    let native = NativeRef::new(&mut heap, 3).expect("should have room");
    let context = ContextRef::new(&mut heap, None, 1, 0).expect("should have room");
    let closure = ClosureRef::new(&mut heap, 4, Some(context), Some(name)).expect("should have room");
    for (slot, kind) in [
        (name.slot(), HeapKind::String),
        (shape.slot(), HeapKind::Shape),
        (object.slot(), HeapKind::Object),
        (elements.slot(), HeapKind::Elements),
        (record.slot(), HeapKind::Record),
        (native.slot(), HeapKind::Native),
        (context.slot(), HeapKind::Context),
        (closure.slot(), HeapKind::Closure),
    ] {
        assert_eq!(HeapKind::of(heap.cage(), slot), Some(kind));
    }
    assert_eq!(HeapKind::of(heap.cage(), Slot::zero()), None);
}

#[test]
fn text_survives_a_trip_through_code_units_and_a_lone_surrogate_is_named() {
    let mut heap = heap();
    for sample in ["", "plain", "caf\u{e9}", "\u{1F600} smile", "\u{FFFF}\u{10FFFF}"] {
        let string = text(&mut heap, sample);
        assert_eq!(string.to_utf8(heap.cage()).expect("no lone surrogate"), sample);
        assert_eq!(string.to_utf8_lossy(heap.cage()), sample);
        assert_eq!(string.code_units(heap.cage()), sample.encode_utf16().collect::<Vec<u16>>());
        assert_eq!(string.hash(&mut heap), hash_str(sample));
    }
    let broken = StringRef::from_utf16(&mut heap, &[0x61, 0xD83D, 0xDE00, 0xDC00, 0x62]).expect("should have room");
    let error = broken.to_utf8(heap.cage()).expect_err("a lone surrogate");
    assert_eq!((error.index, error.unit), (3, 0xDC00));
    assert_eq!(error.to_string(), "lone surrogate 0xdc00 at code unit 3");
    assert_eq!(broken.to_utf8_lossy(heap.cage()), "a\u{1F600}\u{FFFD}b");
    assert_eq!(broken.as_ascii(heap.cage()), None);
}

#[test]
fn code_unit_order_puts_every_pair_one_way_round() {
    let mut heap = heap();
    let samples = ["", "a", "ab", "b", "\u{e9}", "\u{1F600}", "\u{FFFF}"];
    let strings: Vec<StringRef> = samples.iter().map(|sample| text(&mut heap, sample)).collect();
    for (i, left) in strings.iter().enumerate() {
        for (j, right) in strings.iter().enumerate() {
            assert_eq!(left.compare(heap.cage(), *right), i.cmp(&j), "{:?} {:?}", samples[i], samples[j]);
        }
    }
    assert_eq!(strings[0].compare(heap.cage(), strings[0]), Ordering::Equal);
}

#[test]
fn equal_strings_are_stored_alike_however_they_were_built() {
    let mut heap = heap();
    let left = text(&mut heap, "ab");
    let a = text(&mut heap, "a");
    let b = text(&mut heap, "b");
    let joined = StringRef::concat(&mut heap, a, b).expect("should have room");
    let units = StringRef::from_utf16(&mut heap, &[0x61, 0x62]).expect("should have room");
    for other in [joined, units] {
        assert!(left.equals(heap.cage(), other));
        assert!(other.is_latin1(heap.cage()));
        assert_eq!(other.hash(&mut heap), left.hash(&mut heap));
    }
}

#[test]
fn atoms_are_equal_exactly_when_their_text_is_and_the_table_keeps_room() {
    let mut heap = heap();
    let mut table = AtomTable::new();
    let mut atoms = Vec::new();
    for n in 0..200 {
        atoms.push(table.intern(&mut heap, &format!("name{n}")).expect("should have room"));
        assert!(4 * table.len() <= 3 * table.bucket_count());
    }
    for (n, atom) in atoms.iter().enumerate() {
        let name = format!("name{n}");
        assert_eq!(table.intern(&mut heap, &name), Some(*atom));
        assert_eq!(table.lookup(heap.cage(), &name), Some(*atom));
        assert_eq!(atom.as_ascii(heap.cage()), Some(name));
        assert_ne!(*atom, atoms[(n + 1) % 200]);
    }
    assert!(table.memory_bytes() >= 4 * table.bucket_count());
    assert_eq!(table.memory_bytes() % 4, 0);
}

#[test]
fn the_same_names_in_the_same_order_reach_one_shape_and_share_one_prototype() {
    let mut heap = heap();
    let empty = ShapeRef::root(&mut heap, None).expect("should have room");
    let above = ObjectRef::new(&mut heap, empty, 0).expect("should have room");
    let root = ShapeRef::root(&mut heap, Some(above)).expect("should have room");
    let x = text(&mut heap, "x");
    let y = text(&mut heap, "y");
    let xy = root.transition(&mut heap, x).and_then(|s| s.transition(&mut heap, y)).expect("should have room");
    let again = root.transition(&mut heap, x).and_then(|s| s.transition(&mut heap, y)).expect("should have room");
    let yx = root.transition(&mut heap, y).and_then(|s| s.transition(&mut heap, x)).expect("should have room");
    assert_eq!(xy, again);
    assert_ne!(xy, yx);
    assert_eq!(xy.index_of(heap.cage(), x), Some(0));
    assert_eq!(xy.index_of(heap.cage(), y), Some(1));
    assert_eq!(yx.index_of(heap.cage(), x), Some(1));
    for shape in [root, xy, yx] {
        assert_eq!(shape.prototype(heap.cage()), Some(above));
    }
}

#[test]
fn objects_do_not_see_each_other_and_a_shape_is_a_layout() {
    let mut heap = heap();
    let root = ShapeRef::root(&mut heap, None).expect("should have room");
    let left = ObjectRef::new(&mut heap, root, 1).expect("should have room");
    let right = ObjectRef::new(&mut heap, root, 3).expect("should have room");
    let names: Vec<StringRef> = ["a", "b", "c", "d"].iter().map(|name| text(&mut heap, name)).collect();
    for (n, name) in names.iter().enumerate() {
        left.set(&mut heap, *name, n as u64).expect("should have room");
        right.set(&mut heap, *name, 100 + n as u64).expect("should have room");
    }
    left.set(&mut heap, names[2], 7).expect("should have room");
    assert_eq!(left.get(heap.cage(), names[2]), Some(7));
    assert_eq!(right.get(heap.cage(), names[2]), Some(102));
    assert_eq!(left.shape(heap.cage()), right.shape(heap.cage()));
    assert_eq!(left.names(heap.cage()), right.names(heap.cage()));
}

#[test]
fn an_array_that_was_grown_holds_the_index_it_was_grown_for() {
    assert_eq!(ElementsRef::grown_for(0, 0), Some(FIRST_ELEMENTS));
    assert_eq!(ElementsRef::grown_for(8, 8), Some(16));
    assert_eq!(ElementsRef::grown_for(8, 8 + MAX_GAP), Some(9 + MAX_GAP));
    assert_eq!(ElementsRef::grown_for(8, 9 + MAX_GAP), None);
    assert_eq!(ElementsRef::grown_for(u32::MAX, u32::MAX), None);
    let mut heap = heap();
    let elements = ElementsRef::new(&mut heap, 4).expect("should have room");
    elements.set(&mut heap, 2, NAMED);
    elements.set(&mut heap, 1, 5);
    assert_eq!(elements.value_at(heap.cage(), 2), NAMED);
    assert_eq!(elements.value_at(heap.cage(), 3), HOLE);
}

#[test]
fn a_record_wastes_four_bytes_on_an_odd_count_alone() {
    assert_eq!(values_offset(0), 8);
    assert_eq!(values_offset(1), 16);
    assert_eq!(values_offset(2), 16);
    assert_eq!(values_offset(3), 24);
}

#[test]
fn a_variable_two_closures_captured_is_one_variable() {
    let mut heap = heap();
    let outer = ContextRef::new(&mut heap, None, 1, 11).expect("should have room");
    let inner = ContextRef::new(&mut heap, Some(outer), 2, 22).expect("should have room");
    let left = ClosureRef::new(&mut heap, 1, Some(inner), None).expect("should have room");
    let right = ClosureRef::new(&mut heap, 2, Some(inner), None).expect("should have room");
    let seen = left.captured(heap.cage()).expect("a context");
    seen.set_cell(&mut heap, 1, 99);
    let other = right.captured(heap.cage()).expect("a context");
    assert_eq!(other.cell(heap.cage(), 1), Some(99));
    assert_eq!(other.cell(heap.cage(), 0), Some(22));
    assert_eq!(other.parent(heap.cage()), Some(outer));
    assert_eq!(outer.cell(heap.cage(), 0), Some(11));
    assert_eq!((left.function(heap.cage()), right.function(heap.cage())), (1, 2));
}

#[test]
fn what_is_allocated_later_changes_nothing_that_is_there() {
    let mut heap = heap();
    let root = ShapeRef::root(&mut heap, None).expect("should have room");
    let object = ObjectRef::new(&mut heap, root, 0).expect("should have room");
    let name = text(&mut heap, "kept");
    object.set(&mut heap, name, 41).expect("should have room");
    for n in 0..50 {
        text(&mut heap, &format!("string number {n}"));
        ElementsRef::new(&mut heap, n).expect("should have room");
        let other = ObjectRef::new(&mut heap, root, 1).expect("should have room");
        other.set(&mut heap, name, u64::from(n)).expect("should have room");
    }
    assert_eq!(object.get(heap.cage(), name), Some(41));
    assert_eq!(object.names(heap.cage()), vec![name]);
    assert_eq!(name.to_utf8_lossy(heap.cage()), "kept");
}

#[test]
fn a_cage_has_the_place_it_was_given() {
    let left = Cage::new(PLACE).expect("should make a cage");
    let right = Cage::new(Reservation { base: 3 * CAGE_SIZE, page: 16384 }).expect("should make a cage");
    assert_eq!(right.base(), 3 * CAGE_SIZE);
    assert_eq!(right.offset_of(left.address_of(8)), None);
    assert_eq!(left.offset_of(right.address_of(8)), None);
    for (base, page) in [(0, 4096), (4096, 4096), (u64::MAX - CAGE_SIZE + 1, 4096), (CAGE_SIZE, 0), (CAGE_SIZE, 4095)] {
        match Cage::new(Reservation { base, page }) {
            Ok(_) => panic!("a cage at {base} with pages of {page}"),
            Err(error) => {
                assert_eq!(error, CageError::Reserve(ReservationError::Unsuitable { base, page }));
                assert_eq!(
                    error.to_string(),
                    format!(
                        "could not reserve the 4294967296 byte cage: a cage cannot start at {base} with pages of {page} bytes"
                    )
                );
            }
        }
    }
    let mut heap = BumpHeap::new(Reservation { base: 5 * CAGE_SIZE, page: 4096 }).expect("should make a heap");
    assert_eq!(heap.try_allocate(8), Some(5 * CAGE_SIZE));
}

#[test]
fn what_is_in_the_heap_is_written_by_what_it_is_and_where() {
    let mut heap = heap();
    let name = text(&mut heap, "name");
    let shape = ShapeRef::root(&mut heap, None).expect("should have room");
    let object = ObjectRef::new(&mut heap, shape, 0).expect("should have room");
    let elements = ElementsRef::new(&mut heap, 0).expect("should have room");
    let record = RecordRef::new(&mut heap, &[]).expect("should have room");
    let native = NativeRef::new(&mut heap, 3).expect("should have room");
    let context = ContextRef::new(&mut heap, None, 0, 0).expect("should have room");
    let closure = ClosureRef::new(&mut heap, 4, None, None).expect("should have room");
    assert_eq!(name.to_string(), "str@cage+0x0");
    assert_eq!(shape.to_string(), "shape@cage+0x10");
    assert_eq!(object.to_string(), "object@cage+0x30");
    assert_eq!(elements.to_string(), "elements@cage+0x40");
    assert_eq!(record.to_string(), "record@cage+0x48");
    assert_eq!(native.to_string(), "native@cage+0x50");
    assert_eq!(context.to_string(), "env@cage+0x58");
    assert_eq!(closure.to_string(), "fn@cage+0x68");
    let mut table = AtomTable::new();
    assert_eq!(table.to_string(), "AtomTable { atoms: 0, buckets: 0 }");
    let atom = table.intern(&mut heap, "x").expect("should have room");
    assert_eq!(atom.to_string(), "atom@cage+0x78");
    assert_eq!(table.to_string(), "AtomTable { atoms: 1, buckets: 16 }");
    assert_eq!(heap.to_string(), "BumpHeap { cursor: 136, committed: 65536, allocations: 9 }");
    assert_eq!(
        heap.cage().to_string(),
        "Cage { base: 0x100000000, size: 4294967296, guard: 4294967296 }"
    );
    assert_ne!(Slot::from_offset(0x20).to_string(), Slot::from_offset(0x28).to_string());
}

#[test]
fn allocating_without_saying_what_for_is_counted_like_any_other() {
    let mut heap = heap();
    heap.try_allocate(12).expect("should have room");
    let census = heap.census();
    assert_eq!(census.totals(ObjectKind::Other).requested_bytes, 12);
    assert_eq!(census.totals(ObjectKind::Other).reserved_bytes, 16);
    assert_eq!((census.commit_count, census.committed_bytes), (1, COMMIT_CHUNK));
    assert_eq!(heap.cursor(), 16);
}

#[test]
fn objects_built_alike_share_a_shape_and_rewriting_keeps_it() {
    let mut heap = heap();
    let empty = ShapeRef::root(&mut heap, None).expect("should have room");
    let above = ObjectRef::new(&mut heap, empty, 0).expect("should have room");
    let root = ShapeRef::root(&mut heap, Some(above)).expect("should have room");
    let names: Vec<StringRef> = ["x", "y", "z"].iter().map(|name| text(&mut heap, name)).collect();
    let left = ObjectRef::new(&mut heap, root, 3).expect("should have room");
    let right = ObjectRef::new(&mut heap, root, 0).expect("should have room");
    for name in &names {
        left.set(&mut heap, *name, 1).expect("should have room");
    }
    for name in &names {
        right.set(&mut heap, *name, 2).expect("should have room");
    }
    let shape = left.shape(heap.cage());
    assert_eq!(right.shape(heap.cage()), shape);
    assert_eq!(shape.prototype(heap.cage()), Some(above));
    let cursor = heap.cursor();
    left.set(&mut heap, names[1], 9).expect("should have room");
    assert_eq!(left.shape(heap.cage()), shape);
    assert_eq!(heap.cursor(), cursor);
    assert_eq!(heap.census().totals(ObjectKind::Shape).count, 5);
    assert_eq!(heap.census().totals(ObjectKind::Properties).count, 1);
}

#[test]
fn a_new_table_takes_no_memory_and_no_atom_is_listed_twice() {
    let mut heap = heap();
    let mut table = AtomTable::new();
    assert_eq!(table.memory_bytes(), 0);
    assert!(table.atoms().is_empty());
    for n in 0..40 {
        table.intern(&mut heap, &format!("n{}", n % 30)).expect("should have room");
    }
    let atoms = table.atoms();
    assert_eq!(atoms.len(), 30);
    for (i, left) in atoms.iter().enumerate() {
        assert!(left.slot().is_pointer());
        for right in &atoms[i + 1..] {
            assert_ne!(left, right);
        }
    }
}
