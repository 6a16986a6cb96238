//! Strings in the cage.

use std::cmp::Ordering;
use std::collections::HashSet;

use katsu::gc::bump::{BumpHeap, ObjectKind};
use katsu::gc::cage::{Slot, CAGE_SIZE, Reservation};
use katsu::gc::string::{hash_str, MAX_STRING_LENGTH, STRING_HEADER_SIZE, StringRef};

/// A place in the address space for a cage.
const PLACE: Reservation = Reservation { base: CAGE_SIZE, page: 4096 };

#[test]
fn ascii_text_is_stored_one_byte_per_character() {
    let mut heap = BumpHeap::new(PLACE).unwrap();
    let string = StringRef::from_str(&mut heap, "hello world").unwrap();
    let cage = heap.cage();
    assert!(string.is_latin1(cage));
    assert_eq!(string.len(cage), 11);
    assert_eq!(string.latin1_bytes(cage).unwrap(), b"hello world".to_vec());
    assert_eq!(string.as_ascii(cage).as_deref(), Some("hello world"));
}

#[test]
fn a_ten_character_ascii_string_costs_what_the_budget_says() {
    let mut heap = BumpHeap::new(PLACE).unwrap();
    StringRef::from_str(&mut heap, "0123456789").unwrap();
    let totals = heap.census().totals(ObjectKind::String);
    assert_eq!(totals.count, 1);
    assert_eq!(STRING_HEADER_SIZE, 12);
    assert_eq!(
        totals.requested_bytes, 22,
        "a three word header in front of ten characters"
    );
    assert_eq!(
        totals.reserved_bytes, 24,
        "twenty two bytes rounds up to twenty four, and the padding has to be visible"
    );
}

#[test]
fn latin1_covers_every_code_point_below_256_not_just_ascii() {
    let mut heap = BumpHeap::new(PLACE).unwrap();
    let string = StringRef::from_str(&mut heap, "café").unwrap();
    let cage = heap.cage();
    assert!(string.is_latin1(cage), "é fits in a byte");
    assert_eq!(string.len(cage), 4);
    assert_eq!(
        string.as_ascii(cage).as_deref(),
        None,
        "0xE9 on its own is not valid UTF-8, so the free path has to refuse it"
    );
    assert_eq!(string.to_utf8(cage).unwrap(), "café");
}

#[test]
fn text_above_the_byte_range_goes_to_utf16() {
    let mut heap = BumpHeap::new(PLACE).unwrap();
    let string = StringRef::from_str(&mut heap, "日本語").unwrap();
    let cage = heap.cage();
    assert!(!string.is_latin1(cage));
    assert_eq!(string.len(cage), 3);
    assert_eq!(string.to_utf8(cage).unwrap(), "日本語");
}

#[test]
fn a_surrogate_pair_is_two_code_units_and_one_character() {
    let mut heap = BumpHeap::new(PLACE).unwrap();
    // U+1F363, outside the basic multilingual plane, so JavaScript sees length 2.
    let string = StringRef::from_str(&mut heap, "\u{1F363}").unwrap();
    let cage = heap.cage();
    assert_eq!(string.len(cage), 2);
    assert_eq!(string.code_unit_at(cage, 0), Some(0xD83C));
    assert_eq!(string.code_unit_at(cage, 1), Some(0xDF63));
    assert_eq!(string.code_unit_at(cage, 2), None);
    assert_eq!(string.to_utf8(cage).unwrap(), "\u{1F363}");
}

#[test]
fn a_lone_surrogate_is_an_error_at_the_rust_boundary_and_not_before() {
    let mut heap = BumpHeap::new(PLACE).unwrap();
    // Building it is fine. JavaScript allows this and so must we.
    let string = StringRef::from_utf16(&mut heap, &[0x0041, 0xD800, 0x0042]).unwrap();
    let cage = heap.cage();
    assert_eq!(string.len(cage), 3);
    assert_eq!(string.code_unit_at(cage, 1), Some(0xD800));

    let error = string.to_utf8(cage).unwrap_err();
    assert_eq!(error.index, 1);
    assert_eq!(error.unit, 0xD800);
    assert!(error.to_string().contains("lone surrogate"));

    // Printing still works, because printing asks for the lossy conversion by name.
    assert_eq!(string.to_utf8_lossy(cage), "A\u{FFFD}B");
}

#[test]
fn utf16_input_that_fits_in_bytes_is_narrowed_on_the_way_in() {
    let mut heap = BumpHeap::new(PLACE).unwrap();
    let wide = StringRef::from_utf16(&mut heap, &[0x0068, 0x0069]).unwrap();
    let narrow = StringRef::from_str(&mut heap, "hi").unwrap();
    let cage = heap.cage();
    assert!(
        wide.is_latin1(cage),
        "representation is canonical, so this has to narrow"
    );
    assert!(wide.equals(cage, narrow));
    assert_eq!(wide.hash(&mut heap), narrow.hash(&mut heap));
}

#[test]
fn equality_is_by_characters_and_rejects_early_on_length() {
    let mut heap = BumpHeap::new(PLACE).unwrap();
    let a = StringRef::from_str(&mut heap, "prototype").unwrap();
    let b = StringRef::from_str(&mut heap, "prototype").unwrap();
    let c = StringRef::from_str(&mut heap, "prototyp").unwrap();
    let d = StringRef::from_str(&mut heap, "日本語").unwrap();
    let cage = heap.cage();
    assert_ne!(a.slot(), b.slot(), "two allocations, two addresses");
    assert!(a.equals(cage, b));
    assert!(!a.equals(cage, c));
    assert!(!a.equals(cage, d));
    assert!(a.equals_str(cage, "prototype"));
    assert!(!a.equals_str(cage, "prototypes"));
    assert!(d.equals_str(cage, "日本語"));
    assert!(!d.equals_str(cage, "日本"));
}

#[test]
fn the_hash_is_cached_and_agrees_with_the_one_computed_from_rust_text() {
    let mut heap = BumpHeap::new(PLACE).unwrap();
    let string = StringRef::from_str(&mut heap, "length").unwrap();
    let first = string.hash(&mut heap);
    assert_eq!(first, string.hash(&mut heap), "the cached hash has to match");
    let cage = heap.cage();
    assert_eq!(
        first,
        hash_str("length"),
        "a lookup has to be able to hash the text without building the string"
    );
    assert_eq!(string.len(cage), 6, "caching the hash must not eat a field");
    assert_eq!(string.as_ascii(cage).as_deref(), Some("length"));
}

#[test]
fn the_hash_spreads_well_enough_to_be_worth_having() {
    // Not a quality claim, a smoke test. A mixer that returns a constant or that ignores
    // ordering would sail through every other test in this file.
    let mut seen = HashSet::new();
    for i in 0..2000 {
        seen.insert(hash_str(&format!("property{i}")));
    }
    assert!(
        seen.len() > 1990,
        "two thousand distinct names collided {} times",
        2000 - seen.len()
    );
    assert_ne!(hash_str("ab"), hash_str("ba"), "ordering has to matter");
    assert_ne!(hash_str("a"), hash_str("aa"), "length has to matter");
}

#[test]
fn the_empty_string_is_a_string_and_not_a_refusal() {
    let mut heap = BumpHeap::new(PLACE).unwrap();
    let empty = StringRef::from_str(&mut heap, "").unwrap();
    let cage = heap.cage();
    assert!(empty.is_empty(cage));
    assert_eq!(empty.len(cage), 0);
    assert_eq!(empty.as_ascii(cage).as_deref(), Some(""));
    assert_eq!(empty.hash(&mut heap), hash_str(""));
}

#[test]
fn concatenation_copies_and_renarrows() {
    let mut heap = BumpHeap::new(PLACE).unwrap();
    let left = StringRef::from_str(&mut heap, "kat").unwrap();
    let right = StringRef::from_str(&mut heap, "su").unwrap();
    let joined = StringRef::concat(&mut heap, left, right).unwrap();
    assert_eq!(joined.as_ascii(heap.cage()).as_deref(), Some("katsu"));
    assert!(joined.is_latin1(heap.cage()));

    let wide = StringRef::from_str(&mut heap, "語").unwrap();
    let mixed = StringRef::concat(&mut heap, joined, wide).unwrap();
    assert!(!mixed.is_latin1(heap.cage()));
    assert_eq!(mixed.to_utf8(heap.cage()).unwrap(), "katsu語");
}

#[test]
fn a_reference_survives_a_round_trip_through_a_slot() {
    let mut heap = BumpHeap::new(PLACE).unwrap();
    let string = StringRef::from_str(&mut heap, "round trip").unwrap();
    let slot = string.slot();
    let back = StringRef::from_slot(slot).unwrap();
    assert_eq!(back.as_ascii(heap.cage()).as_deref(), Some("round trip"));
    assert!(
        StringRef::from_slot(Slot::zero()).is_none(),
        "an integer slot does not name a string"
    );
}

#[test]
fn the_length_limit_is_checked_before_anything_is_allocated() {
    let mut heap = BumpHeap::new(PLACE).unwrap();
    // The limit itself cannot be reached in a test without a gigabyte of payload, so this
    // checks the shape of the guard rather than the boundary: the limit is below the range
    // of the length field, and the empty string is still a real object.
    assert_eq!(MAX_STRING_LENGTH, (1 << 30) - 1);
    let before = heap.cursor();
    assert!(StringRef::from_latin1(&mut heap, &[]).is_some());
    assert!(
        heap.cursor() > before,
        "the empty string is still an object"
    );
}

#[test]
fn strings_order_by_code_unit_and_not_by_anything_a_human_would_call_alphabetical() {

    let mut heap = BumpHeap::new(PLACE).unwrap();
    let a = StringRef::from_str(&mut heap, "a").unwrap();
    let b = StringRef::from_str(&mut heap, "b").unwrap();
    let ab = StringRef::from_str(&mut heap, "ab").unwrap();
    let abc = StringRef::from_str(&mut heap, "abc").unwrap();
    let big_a = StringRef::from_str(&mut heap, "A").unwrap();
    // Latin-1 on one side and UTF-16 on the other, which is the case a byte comparison gets
    // wrong because it would be comparing bytes against half of a code unit.
    let wide = StringRef::from_str(&mut heap, "\u{4e00}").unwrap();
    let cage = heap.cage();

    assert_eq!(a.compare(cage, b), Ordering::Less);
    assert_eq!(b.compare(cage, a), Ordering::Greater);
    assert_eq!(a.compare(cage, a), Ordering::Equal);
    // A prefix sorts before what it is a prefix of.
    assert_eq!(ab.compare(cage, abc), Ordering::Less);
    // Uppercase sorts before lowercase, because `A` is 0x41 and `a` is 0x61.
    assert_eq!(big_a.compare(cage, a), Ordering::Less);
    assert!(!wide.is_latin1(cage));
    assert_eq!(a.compare(cage, wide), Ordering::Less);
    assert_eq!(wide.compare(cage, a), Ordering::Greater);
}
