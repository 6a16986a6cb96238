//! The atom table.

use katsu::gc::atom::{AtomTable, MIN_CAPACITY};
use katsu::gc::cage::{CAGE_SIZE, Reservation};
use katsu::gc::bump::{BumpHeap, ObjectKind};
use katsu::gc::string::StringRef;

/// A place in the address space for a cage.
const PLACE: Reservation = Reservation { base: CAGE_SIZE, page: 4096 };

#[test]
fn an_empty_table_costs_nothing() {
    let table = AtomTable::new();
    assert!(table.is_empty());
    assert_eq!(table.len(), 0);
    assert_eq!(table.memory_bytes(), 0);
}

#[test]
fn the_same_text_interns_to_the_same_atom() {
    let mut heap = BumpHeap::new(PLACE).unwrap();
    let mut table = AtomTable::new();
    let first = table.intern(&mut heap, "length").unwrap();
    let second = table.intern(&mut heap, "length").unwrap();
    assert_eq!(first, second);
    assert_eq!(
        first.slot(),
        second.slot(),
        "interning is only worth anything if the comparison is on the slot"
    );
    assert_eq!(table.len(), 1);
    assert_eq!(
        heap.census().totals(ObjectKind::String).count,
        1,
        "the second intern must not allocate a second copy"
    );
}

#[test]
fn different_text_interns_to_different_atoms() {
    let mut heap = BumpHeap::new(PLACE).unwrap();
    let mut table = AtomTable::new();
    let length = table.intern(&mut heap, "length").unwrap();
    let name = table.intern(&mut heap, "name").unwrap();
    assert_ne!(length, name);
    assert_eq!(table.len(), 2);
    assert_eq!(length.as_ascii(heap.cage()).as_deref(), Some("length"));
    assert_eq!(name.as_ascii(heap.cage()).as_deref(), Some("name"));
}

#[test]
fn a_lookup_that_misses_allocates_nothing() {
    let mut heap = BumpHeap::new(PLACE).unwrap();
    let mut table = AtomTable::new();
    table.intern(&mut heap, "constructor").unwrap();
    let before = heap.cursor();
    assert!(table.lookup(heap.cage(), "constructo").is_none());
    assert!(table.lookup(heap.cage(), "constructors").is_none());
    assert!(table.lookup(heap.cage(), "").is_none());
    assert!(table.lookup(heap.cage(), "constructor").is_some());
    assert_eq!(
        heap.cursor(),
        before,
        "a lookup that builds a candidate string is not a lookup"
    );
}

#[test]
fn interning_marks_the_string_as_canonical() {
    let mut heap = BumpHeap::new(PLACE).unwrap();
    let mut table = AtomTable::new();
    let loose = StringRef::from_str(&mut heap, "prototype").unwrap();
    assert!(!loose.is_interned(heap.cage()));
    let atom = table.intern_string(&mut heap, loose);
    assert!(loose.is_interned(heap.cage()));
    assert_eq!(atom.as_string().slot(), loose.slot());

    // A second string with the same text collapses onto the first.
    let duplicate = StringRef::from_str(&mut heap, "prototype").unwrap();
    assert_ne!(duplicate.slot(), loose.slot());
    let same = table.intern_string(&mut heap, duplicate);
    assert_eq!(same.slot(), loose.slot());
    assert_eq!(table.len(), 1);
}

#[test]
fn interning_from_text_and_from_a_string_reach_the_same_atom() {
    let mut heap = BumpHeap::new(PLACE).unwrap();
    let mut table = AtomTable::new();
    let from_text = table.intern(&mut heap, "valueOf").unwrap();
    let built = StringRef::from_str(&mut heap, "valueOf").unwrap();
    let from_string = table.intern_string(&mut heap, built);
    assert_eq!(from_text, from_string);
    assert_eq!(table.len(), 1);
}

#[test]
fn a_utf16_name_interns_like_any_other() {
    let mut heap = BumpHeap::new(PLACE).unwrap();
    let mut table = AtomTable::new();
    let first = table.intern(&mut heap, "日本語").unwrap();
    let second = table.intern(&mut heap, "日本語").unwrap();
    assert_eq!(first, second);
    assert_eq!(first.as_ascii(heap.cage()).as_deref(), None);
    assert_eq!(
        first.as_string().to_utf8(heap.cage()).unwrap(),
        "日本語",
        "the atom has to survive the round trip through the table"
    );
    assert_eq!(table.len(), 1);
}

#[test]
fn the_table_grows_and_keeps_every_atom_findable() {
    let mut heap = BumpHeap::new(PLACE).unwrap();
    let mut table = AtomTable::new();
    let names: Vec<String> = (0..500).map(|i| format!("property{i}")).collect();
    let atoms: Vec<_> = names
        .iter()
        .map(|name| table.intern(&mut heap, name).unwrap())
        .collect();

    assert_eq!(table.len(), 500);
    assert!(table.bucket_count() > MIN_CAPACITY, "the table has to grow");
    assert_eq!(table.atoms().len(), 500, "growth must not drop an atom");

    for (name, atom) in names.iter().zip(&atoms) {
        let found = table.lookup(heap.cage(), name).unwrap();
        assert_eq!(found, *atom, "{name} moved during a rehash");
    }

    // Interning them all again finds every one and allocates nothing.
    let before = heap.cursor();
    for (name, atom) in names.iter().zip(&atoms) {
        assert_eq!(table.intern(&mut heap, name).unwrap(), *atom);
    }
    assert_eq!(heap.cursor(), before);
}

#[test]
fn the_table_stays_under_its_load_factor() {
    let mut heap = BumpHeap::new(PLACE).unwrap();
    let mut table = AtomTable::new();
    for i in 0..100 {
        table.intern(&mut heap, &format!("n{i}")).unwrap();
        assert!(
            table.len() * 4 <= table.bucket_count() * 3,
            "linear probing degrades badly past three quarters full"
        );
    }
    assert!(table.memory_bytes() >= table.bucket_count() * 4);
}
