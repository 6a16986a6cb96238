//! Bump allocation into the cage, with no collector behind it.
//!
//! It hands out memory and never takes any back. Whatever collector comes later, the allocation fast
//! path is a pointer increment and a limit check. Beside it sits the census, because a memory budget
//! that is not a test is a wish, and a test needs something to read from.

use vstd::prelude::*;

use crate::gc::block::{Block, Blocks};
use crate::gc::cage::{
    law_a_range_is_on_its_pages, paged, Cage, CageError, Reservation, ReservationError, CAGE_SIZE,
    OBJECT_ALIGN,
};
use crate::gc::collector::{Collector, GcReason, GcStats};
use crate::gc::object::{moved_on, objects_hold_together};
use crate::text::{
    decimal, decimal_string, left_aligned, push_decimal, push_left_aligned, push_right_aligned,
    right_aligned,
};

verus! {

/// How much the heap commits at a time as it grows.
///
/// Sixty four kilobytes. Small enough that a process which allocates almost nothing stays small,
/// large enough that committing is not on any path that runs often.
pub const COMMIT_CHUNK: usize = 65536;

/// What an allocation was for.
///
/// The categories are the line items the heap census reports, so they are chosen to match the
/// questions somebody asks when the memory number regresses, rather than to match the type hierarchy.
#[derive(Clone, Copy, Debug, PartialEq, Eq, PartialOrd, Ord, Structural)]
pub enum ObjectKind {
    /// An ordinary object, including its inline slots.
    Object,
    /// An array's backing store.
    Elements,
    /// A string in any of its representations.
    String,
    /// A closure, not counting the shared blueprint.
    Closure,
    /// A function written in Rust, not counting the table entry that holds the code.
    ///
    /// Its own line rather than a closure, because these are allocated once each when a realm is
    /// built and never again.
    Native,
    /// One level of environment, holding the variables a nested function captured.
    Context,
    /// A shape, which is shared across every object with that layout.
    Shape,
    /// A property array that overflowed the inline slots.
    Properties,
    /// Anything the runtime has not categorised yet.
    ///
    /// This exists so that the census adds up.
    Other,
}

impl ObjectKind {
    /// Where the category stands in the census.
    pub open spec fn position(self) -> int {
        match self {
            ObjectKind::Object => 0,
            ObjectKind::Elements => 1,
            ObjectKind::String => 2,
            ObjectKind::Closure => 3,
            ObjectKind::Native => 4,
            ObjectKind::Context => 5,
            ObjectKind::Shape => 6,
            ObjectKind::Properties => 7,
            ObjectKind::Other => 8,
        }
    }

    /// The name of the category.
    pub open spec fn label(self) -> Seq<char> {
        match self {
            ObjectKind::Object => "objects"@,
            ObjectKind::Elements => "elements"@,
            ObjectKind::String => "strings"@,
            ObjectKind::Closure => "closures"@,
            ObjectKind::Native => "natives"@,
            ObjectKind::Context => "contexts"@,
            ObjectKind::Shape => "shapes"@,
            ObjectKind::Properties => "properties"@,
            ObjectKind::Other => "other"@,
        }
    }

    /// Every category, in the order the census prints them.
    #[must_use]
    pub fn all() -> (kinds: [ObjectKind; 9])
        ensures
            forall|i: int| 0 <= i < 9 ==> (#[trigger] kinds@[i]).position() == i,
    {
        [
            ObjectKind::Object,
            ObjectKind::Elements,
            ObjectKind::String,
            ObjectKind::Closure,
            ObjectKind::Native,
            ObjectKind::Context,
            ObjectKind::Shape,
            ObjectKind::Properties,
            ObjectKind::Other,
        ]
    }

    /// The name a census prints.
    #[must_use]
    pub fn name(self) -> (name: &'static str)
        ensures
            name@ == self.label(),
    {
        match self {
            ObjectKind::Object => "objects",
            ObjectKind::Elements => "elements",
            ObjectKind::String => "strings",
            ObjectKind::Closure => "closures",
            ObjectKind::Native => "natives",
            ObjectKind::Context => "contexts",
            ObjectKind::Shape => "shapes",
            ObjectKind::Properties => "properties",
            ObjectKind::Other => "other",
        }
    }

    fn index(self) -> (index: usize)
        ensures
            index == self.position(),
    {
        match self {
            ObjectKind::Object => 0,
            ObjectKind::Elements => 1,
            ObjectKind::String => 2,
            ObjectKind::Closure => 3,
            ObjectKind::Native => 4,
            ObjectKind::Context => 5,
            ObjectKind::Shape => 6,
            ObjectKind::Properties => 7,
            ObjectKind::Other => 8,
        }
    }
}

/// The category at a position in the census.
pub open spec fn kind_at(position: int) -> ObjectKind {
    if position == 0 {
        ObjectKind::Object
    } else if position == 1 {
        ObjectKind::Elements
    } else if position == 2 {
        ObjectKind::String
    } else if position == 3 {
        ObjectKind::Closure
    } else if position == 4 {
        ObjectKind::Native
    } else if position == 5 {
        ObjectKind::Context
    } else if position == 6 {
        ObjectKind::Shape
    } else if position == 7 {
        ObjectKind::Properties
    } else {
        ObjectKind::Other
    }
}

/// One category's running totals.
#[derive(Clone, Copy, Debug, PartialEq, Eq, Structural)]
pub struct KindTotals {
    /// How many allocations of this kind have happened.
    pub count: u64,
    /// How many bytes they asked for, before alignment padding.
    pub requested_bytes: u64,
    /// How many bytes they actually took, after alignment padding.
    ///
    /// The gap between this and `requested_bytes` is the alignment tax.
    pub reserved_bytes: u64,
}

impl Default for KindTotals {
    /// Nothing allocated.
    fn default() -> (totals: Self)
        ensures
            totals == (KindTotals { count: 0, requested_bytes: 0, reserved_bytes: 0 }),
    {
        KindTotals { count: 0, requested_bytes: 0, reserved_bytes: 0 }
    }
}

/// What the heap has done since it was created.
///
/// Every number here is cumulative and monotonic.
#[derive(Clone, Copy, Debug)]
pub struct Census {
    /// The totals of each category, in the order the census prints them.
    pub totals: [KindTotals; 9],
    /// Bytes handed out in total, after alignment padding.
    pub allocated_bytes: u64,
    /// Allocations in total.
    pub allocation_count: u64,
    /// Bytes committed from the operating system.
    ///
    /// Not the size of the cage, which costs nothing, and not the number of live bytes, because a
    /// container's memory limit counts pages and has no opinion about liveness.
    pub committed_bytes: usize,
    /// Times the heap asked for more pages.
    pub commit_count: u64,
    /// Bytes lost to alignment padding.
    pub padding_bytes: u64,
}

impl Default for Census {
    /// A census of nothing.
    fn default() -> (census: Self)
        ensures
            census.is_zero(),
    {
        let nothing = KindTotals { count: 0, requested_bytes: 0, reserved_bytes: 0 };
        Census {
            totals: [
                nothing,
                nothing,
                nothing,
                nothing,
                nothing,
                nothing,
                nothing,
                nothing,
                nothing,
            ],
            allocated_bytes: 0,
            allocation_count: 0,
            committed_bytes: 0,
            commit_count: 0,
            padding_bytes: 0,
        }
    }
}

/// One line of a census report.
pub open spec fn census_line(
    name: Seq<char>,
    count: Seq<char>,
    requested: Seq<char>,
    reserved: Seq<char>,
) -> Seq<char> {
    left_aligned(name, 12) + " "@ + right_aligned(count, 10) + " "@ + right_aligned(requested, 14)
        + " "@ + right_aligned(reserved, 14) + "\n"@
}

impl Census {
    /// The totals of one category.
    pub open spec fn of(&self, kind: ObjectKind) -> KindTotals {
        self.totals@[kind.position()]
    }

    /// Whether every number is zero.
    pub open spec fn is_zero(&self) -> bool {
        &&& forall|kind: ObjectKind| #[trigger]
            self.of(kind) == (KindTotals { count: 0, requested_bytes: 0, reserved_bytes: 0 })
        &&& self.allocated_bytes == 0
        &&& self.allocation_count == 0
        &&& self.committed_bytes == 0
        &&& self.commit_count == 0
        &&& self.padding_bytes == 0
    }

    /// The categories below `position` added together: how many allocations, how many bytes asked
    /// for and how many taken.
    pub open spec fn summed(&self, position: int) -> (int, int, int)
        decreases position,
    {
        if position <= 0 {
            (0, 0, 0)
        } else {
            let below = self.summed(position - 1);
            let totals = self.of(kind_at(position - 1));
            (
                below.0 + totals.count,
                below.1 + totals.requested_bytes,
                below.2 + totals.reserved_bytes,
            )
        }
    }

    /// The categories add up to the overall numbers, what was taken is what was asked for plus the
    /// padding, and no category took less than it was asked for.
    pub open spec fn adds_up(&self) -> bool {
        &&& self.summed(9).0 == self.allocation_count
        &&& self.summed(9).2 == self.allocated_bytes
        &&& self.summed(9).1 + self.padding_bytes == self.allocated_bytes
        &&& forall|kind: ObjectKind|
            (#[trigger] self.of(kind)).requested_bytes <= self.of(kind).reserved_bytes
    }

    /// The numbers after one more allocation.
    pub open spec fn counts(&self, kind: ObjectKind, bytes: int, before: Census) -> bool {
        &&& self.allocation_count == before.allocation_count + 1
        &&& self.allocated_bytes == before.allocated_bytes + rounded(bytes)
        &&& self.padding_bytes == before.padding_bytes + (rounded(bytes) - bytes)
        &&& self.of(kind).count == before.of(kind).count + 1
        &&& self.of(kind).requested_bytes == before.of(kind).requested_bytes + bytes
        &&& self.of(kind).reserved_bytes == before.of(kind).reserved_bytes + rounded(bytes)
        &&& forall|other: ObjectKind| other != kind ==> #[trigger] self.of(other) == before.of(other)
    }

    /// The report line of one category.
    pub open spec fn kind_line(&self, kind: ObjectKind) -> Seq<char> {
        census_line(
            kind.label(),
            decimal(self.of(kind).count as nat),
            decimal(self.of(kind).requested_bytes as nat),
            decimal(self.of(kind).reserved_bytes as nat),
        )
    }

    /// The report lines of the categories below `position`.
    pub open spec fn kind_lines(&self, position: int) -> Seq<char>
        decreases position,
    {
        if position <= 0 {
            Seq::empty()
        } else {
            self.kind_lines(position - 1) + self.kind_line(kind_at(position - 1))
        }
    }

    /// The last line of the report.
    pub open spec fn commit_line(&self) -> Seq<char> {
        "committed "@ + decimal(self.committed_bytes as nat) + " bytes in "@ + decimal(
            self.commit_count as nat,
        ) + " commits, "@ + decimal(self.padding_bytes as nat) + " bytes lost to alignment\n"@
    }

    /// The whole report: a title line, one line per category, the total and what was committed.
    pub open spec fn report_text(&self) -> Seq<char> {
        census_line("kind"@, "count"@, "requested"@, "reserved"@) + self.kind_lines(9) + census_line(
            "total"@,
            decimal(self.allocation_count as nat),
            ""@,
            decimal(self.allocated_bytes as nat),
        ) + self.commit_line()
    }

    /// The totals for one category.
    #[must_use]
    pub fn totals(&self, kind: ObjectKind) -> (totals: KindTotals)
        ensures
            totals == self.of(kind),
    {
        self.totals[kind.index()]
    }

    /// A census report, one line per category.
    ///
    /// Categories with nothing in them are printed as zeroes rather than omitted, because a missing
    /// line reads as "this cannot happen" when it means "this did not happen this time".
    #[must_use]
    pub fn report(&self) -> (out: String)
        ensures
            out@ == self.report_text(),
    {
        let mut out = String::new();
        push_census_line(&mut out, "kind", "count", "requested", "reserved");
        let ghost titled = out@;
        assert(titled =~= census_line("kind"@, "count"@, "requested"@, "reserved"@));
        let kinds = ObjectKind::all();
        let mut at: usize = 0;
        assert(out@ =~= titled + self.kind_lines(0));
        while at < 9
            invariant
                at <= 9,
                forall|i: int| 0 <= i < 9 ==> (#[trigger] kinds@[i]).position() == i,
                out@ == titled + self.kind_lines(at as int),
            decreases 9 - at,
        {
            let kind: ObjectKind = kinds[at];
            assert(kind == kind_at(at as int));
            let totals = self.totals(kind);
            push_census_line(
                &mut out,
                kind.name(),
                decimal_string(totals.count).as_str(),
                decimal_string(totals.requested_bytes).as_str(),
                decimal_string(totals.reserved_bytes).as_str(),
            );
            at = at + 1;
            assert(out@ =~= titled + self.kind_lines(at as int));
        }
        push_census_line(
            &mut out,
            "total",
            decimal_string(self.allocation_count).as_str(),
            "",
            decimal_string(self.allocated_bytes).as_str(),
        );
        let ghost lines = out@;
        out.append("committed ");
        push_decimal(&mut out, self.committed_bytes as u64);
        out.append(" bytes in ");
        push_decimal(&mut out, self.commit_count);
        out.append(" commits, ");
        push_decimal(&mut out, self.padding_bytes);
        out.append(" bytes lost to alignment\n");
        assert(out@ =~= lines + self.commit_line());
        assert(out@ =~= self.report_text());
        out
    }

    /// Count one allocation.
    fn count(&mut self, kind: ObjectKind, bytes: u64, reserved: u64)
        requires
            0 < bytes <= reserved <= CAGE_SIZE,
            reserved == rounded(bytes as int),
            old(self).adds_up(),
            old(self).allocated_bytes <= CAGE_SIZE,
            old(self).allocation_count <= CAGE_SIZE,
        ensures
            final(self).counts(kind, bytes as int, *old(self)),
            final(self).adds_up(),
            final(self).committed_bytes == old(self).committed_bytes,
            final(self).commit_count == old(self).commit_count,
    {
        let ghost before = *self;
        proof {
            lemma_each_is_part_of_the_sum(self, kind);
        }
        let index: usize = kind.index();
        let totals: KindTotals = self.totals[index];
        self.totals[index] = KindTotals {
            count: totals.count + 1,
            requested_bytes: totals.requested_bytes + bytes,
            reserved_bytes: totals.reserved_bytes + reserved,
        };
        self.allocation_count = self.allocation_count + 1;
        self.allocated_bytes = self.allocated_bytes + reserved;
        self.padding_bytes = self.padding_bytes + (reserved - bytes);
        proof {
            assert forall|other: ObjectKind| other != kind implies #[trigger] self.of(other)
                == before.of(other) by {
                assert(other.position() != kind.position());
            }
            lemma_counting_moves_the_sum(*self, before, kind, bytes as int, 9);
        }
    }
}

/// No category is larger than the sum of them all.
proof fn lemma_each_is_part_of_the_sum(census: &Census, kind: ObjectKind)
    ensures
        census.of(kind).count <= census.summed(9).0,
        census.of(kind).requested_bytes <= census.summed(9).1,
        census.of(kind).reserved_bytes <= census.summed(9).2,
{
    reveal_with_fuel(Census::summed, 10);
}

/// One more allocation moves the sum of the categories below `position` by that allocation, when its
/// category is one of them.
proof fn lemma_counting_moves_the_sum(
    after: Census,
    before: Census,
    kind: ObjectKind,
    bytes: int,
    position: int,
)
    requires
        0 <= position <= 9,
        after.of(kind).count == before.of(kind).count + 1,
        after.of(kind).requested_bytes == before.of(kind).requested_bytes + bytes,
        after.of(kind).reserved_bytes == before.of(kind).reserved_bytes + rounded(bytes),
        forall|other: ObjectKind| other != kind ==> #[trigger] after.of(other) == before.of(other),
    ensures
        ({
            let part: int = if kind.position() < position {
                1
            } else {
                0
            };
            &&& after.summed(position).0 == before.summed(position).0 + part
            &&& after.summed(position).1 == before.summed(position).1 + (if part == 1 {
                bytes
            } else {
                0
            })
            &&& after.summed(position).2 == before.summed(position).2 + (if part == 1 {
                rounded(bytes)
            } else {
                0
            })
        }),
    decreases position,
{
    if position > 0 {
        lemma_counting_moves_the_sum(after, before, kind, bytes, position - 1);
        if kind_at(position - 1) != kind {
            assert(kind.position() != position - 1);
            assert(after.of(kind_at(position - 1)) == before.of(kind_at(position - 1)));
        }
    }
}

fn push_census_line(out: &mut String, name: &str, count: &str, requested: &str, reserved: &str)
    ensures
        final(out)@ == old(out)@ + census_line(name@, count@, requested@, reserved@),
{
    let ghost before = out@;
    push_left_aligned(out, name, 12);
    out.append(" ");
    push_right_aligned(out, count, 10);
    out.append(" ");
    push_right_aligned(out, requested, 14);
    out.append(" ");
    push_right_aligned(out, reserved, 14);
    out.append("\n");
    assert(out@ =~= before + census_line(name@, count@, requested@, reserved@));
}

/// A size rounded up to the alignment of objects.
pub open spec fn rounded(bytes: int) -> int {
    (bytes + 7) / 8 * 8
}

/// A size rounded up to whole chunks.
pub open spec fn in_chunks(bytes: int) -> int {
    (bytes + 65535) / 65536 * 65536
}

/// A heap that only ever moves forward.
///
/// Allocation is a rounding, a comparison and an addition. Everything else here is bookkeeping for
/// the census.
pub struct BumpHeap {
    cage: Cage,
    /// Offset of the next free byte.
    cursor: u64,
    /// Offset one past the last committed byte.
    committed: u64,
    census: Census,
}

impl View for BumpHeap {
    type V = Blocks;

    /// The allocations of the heap, each with what it holds.
    closed spec fn view(&self) -> Blocks {
        self.cage@
    }
}

impl BumpHeap {
    /// The cage of the heap.
    pub closed spec fn caged(&self) -> Cage {
        self.cage
    }

    /// The offset the next allocation gets.
    pub closed spec fn next(&self) -> int {
        self.cursor as int
    }

    /// How many bytes are committed.
    pub closed spec fn readable(&self) -> int {
        self.committed as int
    }

    /// The census of the heap.
    pub closed spec fn counted(&self) -> Census {
        self.census
    }

    /// Whether `bytes` more can be allocated.
    pub open spec fn has_room(&self, bytes: int) -> bool {
        0 < bytes && self.next() + rounded(bytes) <= CAGE_SIZE
    }

    /// The allocations fill the cage from the bottom up to the cursor without overlapping, everything
    /// above the cursor is zero, whole chunks are committed, and the census adds up to the cursor.
    pub closed spec fn laid_out(&self) -> bool {
        &&& self.cage.laid_out()
        &&& self.cursor % 8 == 0
        &&& self.cursor <= self.committed <= CAGE_SIZE
        &&& self.committed % 65536 == 0
        &&& forall|i: int|
            0 <= i < self.committed ==> #[trigger] self.cage.memory().contains_key(i)
        &&& self.cage.ends_by(self.cursor as int)
        &&& forall|i: int| #[trigger]
            self.cage.memory().contains_key(i) && self.cursor <= i ==> self.cage.memory()[i] == 0
        &&& self.census.adds_up()
        &&& self.census.allocated_bytes == self.cursor
        &&& 8 * self.census.allocation_count <= self.cursor
        &&& self.census.committed_bytes == self.committed
        &&& 65536 * self.census.commit_count <= self.committed
    }

    /// Laid out, with every object in it well formed.
    pub open spec fn wf(&self) -> bool {
        &&& self.laid_out()
        &&& objects_hold_together(self@)
    }

    /// A heap that nothing has been allocated into.
    pub open spec fn is_fresh(&self) -> bool {
        &&& self.wf()
        &&& self@ == Map::<int, Block>::empty()
        &&& self.next() == 0
        &&& self.readable() == 0
        &&& self.counted().is_zero()
    }

    /// Lay a cage out in a reservation and start a heap at the bottom of it.
    ///
    /// Nothing is committed here. A heap that has not been allocated into costs address space and no
    /// pages.
    ///
    /// # Errors
    ///
    /// Returns [`CageError`] if there is no address space for the cage.
    pub fn new(reservation: Reservation) -> (heap: Result<BumpHeap, CageError>)
        ensures
            heap is Ok <==> usize::MAX >= CAGE_SIZE && reservation.holds_a_cage(),
            heap matches Err(error) ==> error == CageError::Reserve(
                if usize::MAX < CAGE_SIZE {
                    ReservationError::AddressSpace { size: 8589934592 }
                } else {
                    ReservationError::Unsuitable { base: reservation.base, page: reservation.page }
                },
            ),
            heap matches Ok(heap) ==> heap.is_fresh() && heap.caged().base_address()
                == reservation.base && heap.caged().page_size() == reservation.page,
    {
        match Cage::new(reservation) {
            Ok(cage) => {
                let heap = BumpHeap { cage, cursor: 0, committed: 0, census: Census::default() };
                proof {
                    lemma_nothing_sums_to_nothing(heap.census, 9);
                }
                Ok(heap)
            },
            Err(error) => Err(error),
        }
    }

    /// The cage this heap allocates into.
    #[must_use]
    pub fn cage(&self) -> (cage: &Cage)
        ensures
            *cage == self.caged(),
            cage@ == self@,
            self.laid_out() ==> cage.laid_out(),
    {
        &self.cage
    }

    /// What the heap has done so far.
    #[must_use]
    pub fn census(&self) -> (census: &Census)
        ensures
            *census == self.counted(),
            self.laid_out() ==> census.adds_up() && census.allocated_bytes == self.next()
                && census.committed_bytes == self.readable(),
    {
        &self.census
    }

    /// How the heap is written for a person: how far it has got.
    pub open spec fn text(&self) -> Seq<char> {
        "BumpHeap { cursor: "@ + decimal(self.next() as nat) + ", committed: "@ + decimal(
            self.readable() as nat,
        ) + ", allocations: "@ + decimal(self.counted().allocation_count as nat) + " }"@
    }

    /// The heap for a person to read.
    pub fn to_string(&self) -> (out: String)
        ensures
            out@ == self.text(),
    {
        let mut out = String::new();
        out.append("BumpHeap { cursor: ");
        push_decimal(&mut out, self.cursor);
        out.append(", committed: ");
        push_decimal(&mut out, self.committed);
        out.append(", allocations: ");
        push_decimal(&mut out, self.census.allocation_count);
        out.append(" }");
        assert(out@ =~= self.text());
        out
    }

    /// Allocate `bytes` for an object of `kind`, returning its address.
    ///
    /// The result is eight byte aligned and the memory is zero, because this heap never reuses
    /// anything.
    ///
    /// Returns `None` when the cage is full, and for a request of no bytes at all, because handing
    /// back a pointer to nothing means two objects share an address. A refused request changes
    /// nothing.
    pub fn allocate(&mut self, bytes: usize, kind: ObjectKind) -> (address: Option<u64>)
        requires
            old(self).laid_out(),
        ensures
            final(self).laid_out(),
            old(self).wf() ==> final(self).wf(),
            address is Some <==> old(self).has_room(bytes as int),
            address is None ==> *final(self) == *old(self),
            address matches Some(found) ==> {
                &&& found == old(self).caged().base_address() + old(self).next()
                &&& 0 <= old(self).next() <= u32::MAX
                &&& old(self).next() % 8 == 0
                &&& !old(self)@.contains_key(old(self).next())
                &&& final(self)@ == old(self)@.insert(
                    old(self).next(),
                    Block::fresh(kind, bytes as nat),
                )
                &&& moved_on(*old(self), *final(self), kind, bytes as int)
            },
    {
        if bytes == 0 {
            return None;
        }
        if bytes as u64 > CAGE_SIZE {
            return None;
        }
        let reserved: u64 = (bytes as u64 + 7) / OBJECT_ALIGN as u64 * OBJECT_ALIGN as u64;
        let end: u64 = self.cursor + reserved;
        if end > CAGE_SIZE {
            return None;
        }
        let ghost before = *self;
        proof {
            self.cage.lemma_addresses_are_wide();
        }
        if end > self.committed {
            let target: u64 = (end + 65535) / COMMIT_CHUNK as u64 * COMMIT_CHUNK as u64;
            let committed = self.cage.commit_range(self.committed, target);
            assert(committed is Ok);
            self.census.commit_count = self.census.commit_count + 1;
            self.committed = target;
            self.census.committed_bytes = target as usize;
            proof {
                lemma_committing_reaches(before.cage, self.cage, before.committed, target);
                lemma_sum_depends_on_the_totals(self.census, before.census, 9);
                assert forall|other: ObjectKind| (#[trigger] self.census.of(other)).requested_bytes
                    <= self.census.of(other).reserved_bytes by {
                    assert(self.census.of(other) == before.census.of(other));
                }
            }
        }
        let offset: u64 = self.cursor;
        self.cursor = end;
        self.cage.claim(offset, bytes as u64, kind);
        let ghost recorded = self.census;
        self.census.count(kind, bytes as u64, reserved);
        proof {
            assert forall|other: ObjectKind| other != kind implies #[trigger] self.census.of(other)
                == before.census.of(other) by {
                assert(recorded.of(other) == before.census.of(other));
            }
            assert(recorded.of(kind) == before.census.of(kind));
            if before.wf() {
                crate::gc::object::lemma_fresh_block_is_no_object_yet(
                    before@,
                    offset as int,
                    kind,
                    bytes as nat,
                );
            }
        }
        // The offset always fits, because the cursor is bounded by the cage size above.
        Some(self.cage.address_of(offset as u32))
    }

    /// Commit enough pages that the next `bytes` of allocation will not need to.
    ///
    /// The cursor does not move, so this reserves capacity rather than space. A caller who knows
    /// roughly how much a phase will allocate can pay for the pages once instead of once per chunk.
    ///
    /// # Errors
    ///
    /// Returns [`CageError`] if the range leaves the cage.
    pub fn reserve(&mut self, bytes: usize) -> (outcome: Result<(), CageError>)
        requires
            old(self).laid_out(),
        ensures
            final(self).laid_out(),
            final(self)@ == old(self)@,
            final(self).next() == old(self).next(),
            final(self).caged().base_address() == old(self).caged().base_address(),
            final(self).caged().page_size() == old(self).caged().page_size(),
            forall|kind: ObjectKind| #[trigger]
                final(self).counted().of(kind) == old(self).counted().of(kind),
            final(self).counted().allocation_count == old(self).counted().allocation_count,
            final(self).counted().allocated_bytes == old(self).counted().allocated_bytes,
            final(self).counted().padding_bytes == old(self).counted().padding_bytes,
            outcome is Ok <==> old(self).next() + bytes <= CAGE_SIZE,
            outcome is Ok ==> final(self).readable() == if in_chunks(old(self).next() + bytes)
                <= old(self).readable() {
                old(self).readable()
            } else {
                in_chunks(old(self).next() + bytes)
            },
            outcome is Ok ==> final(self).counted().commit_count == old(self).counted().commit_count
                + (if in_chunks(old(self).next() + bytes) <= old(self).readable() {
                0int
            } else {
                1
            }),
            outcome matches Err(error) ==> *final(self) == *old(self) && error
                == CageError::Reserve(
                ReservationError::OutOfBounds {
                    offset: old(self).readable() as u64,
                    len: if old(self).next() + bytes <= u64::MAX {
                        (old(self).next() + bytes - old(self).readable()) as u64
                    } else {
                        (u64::MAX - old(self).readable()) as u64
                    },
                    size: CAGE_SIZE,
                },
            ),
    {
        let end: u64 = self.cursor.saturating_add(bytes as u64);
        if end > CAGE_SIZE {
            return Err(
                CageError::Reserve(
                    ReservationError::OutOfBounds {
                        offset: self.committed,
                        len: end - self.committed,
                        size: CAGE_SIZE,
                    },
                ),
            );
        }
        let target: u64 = (end + 65535) / COMMIT_CHUNK as u64 * COMMIT_CHUNK as u64;
        if target <= self.committed {
            return Ok(());
        }
        let ghost before = *self;
        proof {
            self.cage.lemma_addresses_are_wide();
        }
        let committed = self.cage.commit_range(self.committed, target);
        assert(committed is Ok);
        self.census.commit_count = self.census.commit_count + 1;
        self.committed = target;
        self.census.committed_bytes = target as usize;
        proof {
            lemma_committing_reaches(before.cage, self.cage, before.committed, target);
            lemma_sum_depends_on_the_totals(self.census, before.census, 9);
            assert forall|other: ObjectKind| (#[trigger] self.census.of(other)).requested_bytes
                <= self.census.of(other).reserved_bytes by {
                assert(self.census.of(other) == before.census.of(other));
            }
        }
        Ok(())
    }

    /// The offset of the next byte that will be allocated.
    ///
    /// Exposed for tests and for the census, not as something the runtime should reason about.
    #[must_use]
    pub fn cursor(&self) -> (cursor: usize)
        requires
            self.laid_out(),
        ensures
            cursor == self.next(),
    {
        proof {
            self.cage.lemma_addresses_are_wide();
        }
        self.cursor as usize
    }

    /// Change one byte of an allocation, which changes nothing in any other.
    pub fn write_byte(&mut self, offset: u32, at: usize, value: u8)
        requires
            old(self).laid_out(),
            old(self)@.contains_key(offset as int),
            at < old(self)@[offset as int].bytes.len(),
        ensures
            final(self).laid_out(),
            final(self).stays(*old(self)),
            final(self)@ == old(self)@.insert(
                offset as int,
                old(self)@[offset as int].put_u8(at as int, value),
            ),
    {
        proof {
            self.cage.lemma_ends_by_holds_of_each(self.cursor as int, offset as int);
        }
        self.cage.put_u8(offset, at, value);
    }

    /// A machine that can have a heap has addresses wide enough for every offset in it.
    pub proof fn lemma_addresses_are_wide(&self)
        requires
            self.laid_out(),
        ensures
            usize::MAX >= CAGE_SIZE,
            0 <= self.next() <= CAGE_SIZE,
            self.next() % 8 == 0,
    {
        self.cage.lemma_addresses_are_wide();
    }

    /// Where an allocation lies in the cage.
    pub proof fn cage_lemma(&self, offset: int)
        requires
            self.laid_out(),
            self@.contains_key(offset),
        ensures
            0 <= offset <= u32::MAX,
            offset % 8 == 0,
            0 < self@[offset].bytes.len(),
            offset + self@[offset].bytes.len() <= self.next() <= CAGE_SIZE,
            self.next() % 8 == 0,
            self@ == self.caged()@,
            self.caged().laid_out(),
            usize::MAX >= CAGE_SIZE,
    {
        self.cage.lemma_ends_by_holds_of_each(self.cursor as int, offset);
        self.cage.lemma_addresses_are_wide();
    }

    /// Whether the allocator itself is as it was: the cursor, the committed bytes, the census and the
    /// place of the cage.
    pub open spec fn stays(&self, before: BumpHeap) -> bool {
        &&& self.next() == before.next()
        &&& self.readable() == before.readable()
        &&& self.counted() == before.counted()
        &&& self.caged().base_address() == before.caged().base_address()
        &&& self.caged().page_size() == before.caged().page_size()
    }
}

/// Committing from where the readable bytes end makes everything below the new end readable.
proof fn lemma_committing_reaches(before: Cage, after: Cage, from: u64, to: u64)
    requires
        before.laid_out(),
        from <= to <= CAGE_SIZE,
        forall|i: int| 0 <= i < from ==> #[trigger] before.memory().contains_key(i),
        after.memory() == Map::new(
            |i: int|
                before.memory().contains_key(i) || paged(
                    from as int,
                    to as int,
                    before.page_size() as int,
                    i,
                ),
            |i: int|
                if before.memory().contains_key(i) {
                    before.memory()[i]
                } else {
                    0
                },
        ),
    ensures
        forall|i: int| 0 <= i < to ==> #[trigger] after.memory().contains_key(i),
{
    before.lemma_addresses_are_wide();
    assert forall|i: int| 0 <= i < to implies #[trigger] after.memory().contains_key(i) by {
        law_a_range_is_on_its_pages(from as int, to as int, before.page_size() as int, i);
    }
}

proof fn lemma_nothing_sums_to_nothing(census: Census, position: int)
    requires
        forall|kind: ObjectKind| #[trigger]
            census.of(kind) == (KindTotals { count: 0, requested_bytes: 0, reserved_bytes: 0 }),
    ensures
        census.summed(position) == (0int, 0int, 0int),
    decreases position,
{
    if position > 0 {
        lemma_nothing_sums_to_nothing(census, position - 1);
    }
}

proof fn lemma_sum_depends_on_the_totals(census: Census, other: Census, position: int)
    requires
        forall|kind: ObjectKind| #[trigger] census.of(kind) == other.of(kind),
    ensures
        census.summed(position) == other.summed(position),
    decreases position,
{
    if position > 0 {
        lemma_sum_depends_on_the_totals(census, other, position - 1);
    }
}

impl Collector for BumpHeap {
    open spec fn ready(&self) -> bool {
        self.laid_out()
    }

    /// Allocate without saying what for.
    fn try_allocate(&mut self, bytes: usize) -> (address: Option<u64>)
        ensures
            address is Some <==> old(self).has_room(bytes as int),
            address is None ==> *final(self) == *old(self),
            address matches Some(found) ==> {
                &&& found == old(self).caged().base_address() + old(self).next()
                &&& !old(self)@.contains_key(old(self).next())
                &&& final(self)@ == old(self)@.insert(
                    old(self).next(),
                    Block::fresh(ObjectKind::Other, bytes as nat),
                )
                &&& moved_on(*old(self), *final(self), ObjectKind::Other, bytes as int)
            },
    {
        self.allocate(bytes, ObjectKind::Other)
    }

    /// There is no collector, and saying so by reporting every byte as live is the only honest
    /// answer.
    fn collect(&mut self, reason: GcReason) -> (stats: GcStats)
        ensures
            *final(self) == *old(self),
            stats.live_bytes == old(self).next(),
            stats.reserved_bytes == old(self).readable(),
            stats.pause_micros == 0,
            stats.reason == reason,
    {
        proof {
            self.cage.lemma_addresses_are_wide();
        }
        GcStats {
            live_bytes: self.census.allocated_bytes as usize,
            reserved_bytes: self.committed as usize,
            pause_micros: 0,
            reason,
        }
    }

    /// Committed, not the size of the cage, which costs nothing.
    fn reserved_bytes(&self) -> (bytes: usize)
        ensures
            bytes == self.readable(),
    {
        proof {
            self.cage.lemma_addresses_are_wide();
        }
        self.committed as usize
    }

    fn name(&self) -> (name: &'static str)
        ensures
            name@ == "bump (no collector, M0)"@,
    {
        "bump (no collector, M0)"
    }
}

/// Allocations are aligned, inside the cage, below the cursor, and no two of them share a byte.
pub proof fn law_allocations_are_aligned_and_distinct(heap: &BumpHeap, low: int, high: int)
    requires
        heap.laid_out(),
        heap@.contains_key(low),
        heap@.contains_key(high),
    ensures
        0 <= low < CAGE_SIZE,
        low % 8 == 0,
        0 < heap@[low].bytes.len(),
        low + heap@[low].bytes.len() <= heap.next() <= CAGE_SIZE,
        low < high ==> low + heap@[low].bytes.len() <= high,
{
    heap.cage.lemma_ends_by_holds_of_each(heap.cursor as int, low);
    if low < high {
        heap.cage.lemma_allocations_do_not_overlap(low, high);
    }
}

/// The census adds up: the categories sum to the totals, the totals are what the cursor moved by, what
/// was taken is what was asked for plus what alignment cost, and no category took less than it was
/// asked for.
pub proof fn law_the_census_adds_up(heap: &BumpHeap, kind: ObjectKind)
    requires
        heap.laid_out(),
    ensures
        heap.counted().of(kind).requested_bytes <= heap.counted().of(kind).reserved_bytes,
        heap.counted().summed(9).0 == heap.counted().allocation_count,
        heap.counted().summed(9).2 == heap.counted().allocated_bytes,
        heap.counted().allocated_bytes == heap.next(),
        heap.counted().summed(9).1 + heap.counted().padding_bytes == heap.counted().allocated_bytes,
        heap.counted().committed_bytes == heap.readable(),
        heap.next() <= heap.readable() <= CAGE_SIZE,
        heap.readable() % 65536 == 0,
{
}

/// A size is rounded up to the next eight bytes and a commit to the next sixty four kilobytes: to the
/// smallest multiple that is not below it.
pub proof fn law_sizes_are_rounded_up_and_no_further(bytes: int)
    requires
        0 <= bytes,
    ensures
        rounded(bytes) % 8 == 0,
        bytes <= rounded(bytes) < bytes + 8,
        in_chunks(bytes) % 65536 == 0,
        bytes <= in_chunks(bytes) < bytes + 65536,
{
}

/// There is room for anything that ends inside the cage once it is rounded up, and for nothing of no
/// size.
pub proof fn law_there_is_room_up_to_the_end_of_the_cage(heap: &BumpHeap, bytes: int)
    requires
        heap.laid_out(),
        0 <= bytes,
    ensures
        heap.has_room(bytes) <==> 0 < bytes && heap.next() + bytes <= 4294967296,
{
}

/// What the census calls each category, and in which order it prints them.
pub proof fn law_what_the_census_prints(census: Census, kind: ObjectKind)
    ensures
        kind.label() == match kind {
            ObjectKind::Object => "objects"@,
            ObjectKind::Elements => "elements"@,
            ObjectKind::String => "strings"@,
            ObjectKind::Closure => "closures"@,
            ObjectKind::Native => "natives"@,
            ObjectKind::Context => "contexts"@,
            ObjectKind::Shape => "shapes"@,
            ObjectKind::Properties => "properties"@,
            ObjectKind::Other => "other"@,
        },
        kind_at(kind.position()) == kind,
        0 <= kind.position() < 9,
        census.kind_line(kind) == left_aligned(kind.label(), 12) + " "@ + right_aligned(
            decimal(census.of(kind).count as nat),
            10,
        ) + " "@ + right_aligned(decimal(census.of(kind).requested_bytes as nat), 14) + " "@
            + right_aligned(decimal(census.of(kind).reserved_bytes as nat), 14) + "\n"@,
        census.report_text() == census_line("kind"@, "count"@, "requested"@, "reserved"@)
            + census.kind_lines(9) + census_line(
            "total"@,
            decimal(census.allocation_count as nat),
            ""@,
            decimal(census.allocated_bytes as nat),
        ) + ("committed "@ + decimal(census.committed_bytes as nat) + " bytes in "@ + decimal(
            census.commit_count as nat,
        ) + " commits, "@ + decimal(census.padding_bytes as nat) + " bytes lost to alignment\n"@),
        census.kind_lines(kind.position() + 1) == census.kind_lines(kind.position())
            + census.kind_line(kind),
{
}

} // verus!
