//! The allocator and its census.

use katsu::gc::bump::{BumpHeap, COMMIT_CHUNK, Census, ObjectKind};
use katsu::gc::cage::{CAGE_SIZE, OBJECT_ALIGN, Reservation};
use katsu::gc::collector::{Collector, GcReason};

/// A place in the address space for a cage.
const PLACE: Reservation = Reservation { base: CAGE_SIZE, page: 4096 };

#[test]
fn a_fresh_heap_has_committed_nothing() {
    let heap = BumpHeap::new(PLACE).unwrap();
    assert_eq!(heap.census().committed_bytes, 0);
    assert_eq!(heap.reserved_bytes(), 0);
    assert_eq!(heap.cursor(), 0);
}

#[test]
fn allocations_are_aligned_distinct_and_zeroed() {
    let mut heap = BumpHeap::new(PLACE).unwrap();
    let mut seen = Vec::new();
    for size in 1..=200usize {
        let pointer = heap.allocate(size, ObjectKind::Object).unwrap();
        assert_eq!(
            pointer % OBJECT_ALIGN as u64,
            0,
            "allocation of {size} bytes was not aligned"
        );
        assert!(heap.cage().contains(pointer));

        let offset = heap.cage().offset_of(pointer).unwrap();
        for byte in 0..size {
            assert_eq!(
                heap.cage().read_byte(u64::from(offset) + byte as u64),
                0,
                "fresh memory must be zero"
            );
            heap.write_byte(offset, byte, 0xCD);
        }
        seen.push(pointer);
    }
    let mut sorted = seen.clone();
    sorted.sort_unstable();
    sorted.dedup();
    assert_eq!(
        sorted.len(),
        seen.len(),
        "two allocations shared an address"
    );
}

#[test]
fn the_census_adds_up() {
    let mut heap = BumpHeap::new(PLACE).unwrap();
    heap.allocate(24, ObjectKind::Object).unwrap();
    heap.allocate(24, ObjectKind::Object).unwrap();
    heap.allocate(13, ObjectKind::String).unwrap();
    heap.allocate(64, ObjectKind::Shape).unwrap();

    let census = heap.census();
    assert_eq!(census.allocation_count, 4);
    assert_eq!(census.totals(ObjectKind::Object).count, 2);
    assert_eq!(census.totals(ObjectKind::Object).requested_bytes, 48);
    assert_eq!(census.totals(ObjectKind::Object).reserved_bytes, 48);

    // Thirteen bytes rounds up to sixteen, so three bytes of padding, and that has to show
    // up as padding rather than disappearing into the total.
    assert_eq!(census.totals(ObjectKind::String).requested_bytes, 13);
    assert_eq!(census.totals(ObjectKind::String).reserved_bytes, 16);
    assert_eq!(census.padding_bytes, 3);

    let summed: u64 = ObjectKind::all()
        .iter()
        .map(|&kind| census.totals(kind).reserved_bytes)
        .sum();
    assert_eq!(
        summed, census.allocated_bytes,
        "the per kind totals have to sum to the overall total or the census is decorative"
    );
    assert_eq!(
        usize::try_from(census.allocated_bytes).unwrap(),
        heap.cursor()
    );
}

#[test]
fn the_heap_commits_in_chunks_rather_than_per_allocation() {
    let mut heap = BumpHeap::new(PLACE).unwrap();
    for _ in 0..1000 {
        heap.allocate(8, ObjectKind::Object).unwrap();
    }
    assert_eq!(heap.cursor(), 8000);
    assert_eq!(heap.census().committed_bytes, COMMIT_CHUNK);
    assert_eq!(
        heap.census().commit_count,
        1,
        "eight thousand bytes should fit in one commit"
    );

    // Cross the chunk boundary and check that exactly one more commit happens.
    for _ in 0..(COMMIT_CHUNK / 8) {
        heap.allocate(8, ObjectKind::Object).unwrap();
    }
    assert_eq!(heap.census().commit_count, 2);
    assert_eq!(heap.census().committed_bytes, COMMIT_CHUNK * 2);
}

#[test]
fn reserving_ahead_removes_the_commits_from_the_allocation_path() {
    let mut heap = BumpHeap::new(PLACE).unwrap();
    heap.reserve(1 << 20).unwrap();
    assert_eq!(heap.census().commit_count, 1);
    assert!(heap.census().committed_bytes >= 1 << 20);
    assert_eq!(
        heap.cursor(),
        0,
        "reserving capacity must not consume space"
    );

    for _ in 0..1000 {
        heap.allocate(64, ObjectKind::Object).unwrap();
    }
    assert_eq!(
        heap.census().commit_count,
        1,
        "sixty four kilobytes of allocation inside a one megabyte reservation should not \
         have touched the kernel again"
    );

    // Asking for less than is already committed is free rather than a second syscall.
    heap.reserve(1024).unwrap();
    assert_eq!(heap.census().commit_count, 1);
}

#[test]
fn a_zero_byte_allocation_is_refused() {
    // Handing back a pointer to nothing means two objects share an address, which breaks
    // identity. Every real object has a header, so nothing legitimate asks for zero.
    let mut heap = BumpHeap::new(PLACE).unwrap();
    assert!(heap.allocate(0, ObjectKind::Object).is_none());
}

#[test]
fn an_allocation_larger_than_the_cage_is_refused_rather_than_wrapping() {
    let mut heap = BumpHeap::new(PLACE).unwrap();
    assert!(heap.allocate(usize::MAX, ObjectKind::Elements).is_none());
    assert!(
        heap.allocate(CAGE_SIZE as usize + 1, ObjectKind::Elements)
            .is_none()
    );
    assert_eq!(
        heap.cursor(),
        0,
        "a refused allocation must not move the cursor"
    );
}

#[test]
fn collecting_reports_everything_as_live_because_nothing_is_collected() {
    let mut heap = BumpHeap::new(PLACE).unwrap();
    heap.allocate(128, ObjectKind::Object).unwrap();
    let stats = heap.collect(GcReason::Explicit);
    assert_eq!(stats.live_bytes, 128);
    assert_eq!(stats.reason, GcReason::Explicit);
    assert_eq!(stats.pause_micros, 0);
    assert!(heap.name().contains("no collector"));
}

#[test]
fn the_report_names_every_category_even_the_empty_ones() {
    let census = Census::default();
    let report = census.report();
    for kind in ObjectKind::all() {
        assert!(
            report.contains(kind.name()),
            "the report dropped {}, which reads as impossible rather than as zero",
            kind.name()
        );
    }
}
