//! The cage and the slots inside it.

use katsu::gc::cage::{Cage, CAGE_SIZE, GUARD_SIZE, OBJECT_ALIGN, SMI_MAX, SMI_MIN, Slot, Reservation};

/// A place in the address space for a cage.
const PLACE: Reservation = Reservation { base: CAGE_SIZE, page: 4096 };

#[test]
fn the_cage_base_has_a_clear_low_half() {
    let cage = Cage::new(PLACE).unwrap();
    assert_eq!(
        cage.base() & 0xFFFF_FFFF,
        0,
        "the whole compression scheme depends on this, so it is checked rather than assumed"
    );
}

#[test]
fn an_offset_survives_a_round_trip_through_an_address() {
    let cage = Cage::new(PLACE).unwrap();
    // The two ends, a middle, and the last representable offset. The last one is the
    // interesting case: it is what an offset looks like immediately before it would need a
    // thirty third bit.
    let align = u32::try_from(OBJECT_ALIGN).unwrap();
    for offset in [0u32, align, 1 << 16, 1 << 31, u32::MAX - (align - 1)] {
        let address = cage.address_of(offset);
        assert!(cage.contains(address), "offset {offset} left the cage");
        assert_eq!(cage.offset_of(address), Some(offset));
    }
}

#[test]
fn an_address_outside_the_cage_has_no_offset() {
    let cage = Cage::new(PLACE).unwrap();
    let stack = std::ptr::from_ref(&0u8) as usize as u64;
    assert_eq!(
        cage.offset_of(stack),
        None,
        "a stack address must not compress, or the cage is not a boundary"
    );

    // One past the end, which is the first byte of the guard region.
    let just_past = cage.base() + CAGE_SIZE;
    assert!(!cage.contains(just_past));
    assert_eq!(cage.offset_of(just_past), None);
}

#[test]
fn the_guard_region_is_reserved_and_stays_unreadable() {
    let mut cage = Cage::new(PLACE).unwrap();
    // Committing has to stay inside the cage. If this ever succeeded, the guard would be
    // writable memory rather than a trap, and an out of bounds typed array index would read
    // real data instead of faulting.
    assert!(cage.commit_range(0, CAGE_SIZE + 1).is_err());
    assert!(cage.commit_range(0, CAGE_SIZE + GUARD_SIZE).is_err());
}

#[test]
fn a_commit_range_that_runs_backwards_is_refused() {
    let mut cage = Cage::new(PLACE).unwrap();
    // A caller that subtracts in the wrong order gets an error rather than a range that
    // wraps and commits most of the address space, which is the failure this guards.
    assert!(cage.commit_range(64 * 1024, 0).is_err());
    assert!(cage.commit_range(128 * 1024, 64 * 1024).is_err());
    // An empty range at a legal place is not an error, because a heap that has grown to
    // exactly a chunk boundary asks for nothing and should not have to check first.
    assert!(cage.commit_range(64 * 1024, 64 * 1024).is_ok());
}

#[test]
fn growing_a_chunk_at_a_time_only_commits_the_new_chunk() {
    let mut cage = Cage::new(PLACE).unwrap();
    // Each call adds one chunk rather than recommitting everything below it. What is being
    // checked is that the earlier chunks stay committed and keep their contents, because a
    // range based commit that got its arithmetic wrong would either fault here or zero what
    // was already written.
    for chunk in 0..8 {
        let from = chunk * 64 * 1024;
        let to = from + 64 * 1024;
        cage.commit_range(from, to).unwrap();

        assert_eq!(cage.read_byte(from), 0, "a freshly committed page must read as zero");
        cage.write_byte(from, 0xC5);
    }

    for chunk in 0..8 {
        assert_eq!(
            cage.read_byte(chunk * 64 * 1024),
            0xC5,
            "committing a later chunk must not disturb an earlier one"
        );
    }
}

#[test]
fn committing_makes_the_bottom_of_the_cage_usable() {
    let mut cage = Cage::new(PLACE).unwrap();
    cage.commit_range(0, 64 * 1024).unwrap();

    assert_eq!(cage.read_byte(0), 0);
    cage.write_byte(0, 0x5A);
    assert_eq!(cage.read_byte(0), 0x5A);
    cage.write_byte(64 * 1024 - 1, 0x5A);
}

#[test]
fn a_zero_slot_is_the_integer_zero() {
    // Freshly committed pages are zero, so this is what an uninitialised slot reads as, and
    // it needs to be a valid value rather than a trap representation.
    assert_eq!(Slot::from_bits(0).as_smi(), Some(0));
    assert_eq!(Slot::zero(), Slot::from_smi(0).unwrap());
}

#[test]
fn every_representable_smi_round_trips() {
    // The boundaries, and then a prime stride across the range so the walk is not aligned
    // with any power of two.
    let mut cases = vec![SMI_MIN, SMI_MIN + 1, -1, 0, 1, SMI_MAX - 1, SMI_MAX];
    let mut n = SMI_MIN;
    while n < SMI_MAX - 7_919_191 {
        n += 7_919_191;
        cases.push(n);
    }
    for n in cases {
        let slot = Slot::from_smi(n).unwrap_or_else(|| panic!("{n} should fit in a slot"));
        assert!(slot.is_smi());
        assert!(!slot.is_pointer());
        assert_eq!(slot.as_smi(), Some(n));
        assert_eq!(slot.as_offset(), None);
    }
}

#[test]
fn an_integer_too_large_for_a_slot_is_refused_rather_than_truncated() {
    assert_eq!(Slot::from_smi(SMI_MAX + 1), None);
    assert_eq!(Slot::from_smi(SMI_MIN - 1), None);
    assert_eq!(Slot::from_smi(i32::MAX), None);
    assert_eq!(Slot::from_smi(i32::MIN), None);
}

#[test]
fn a_pointer_slot_never_looks_like_an_integer() {
    for offset in (0..1 << 20).step_by(OBJECT_ALIGN) {
        let slot = Slot::from_offset(offset);
        assert!(slot.is_pointer(), "offset {offset} lost its tag");
        assert_eq!(slot.as_offset(), Some(offset));
        assert_eq!(slot.as_smi(), None);
    }
}

#[test]
fn debug_output_says_which_half_of_the_scheme_a_slot_is_in() {
    assert_eq!(Slot::from_smi(-7).unwrap().to_string(), "-7smi");
    assert_eq!(Slot::from_offset(0x20).to_string(), "cage+0x20");
}
