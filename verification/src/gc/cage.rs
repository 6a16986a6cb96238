//! The heap cage, and the compressed slots that live inside it.
//!
//! The whole JavaScript heap for an isolate sits inside one region of address space. A heap slot
//! becomes four bytes instead of eight, and a corrupted reference inside a cage is a thirty two bit
//! offset, so the worst it can reach is somewhere else inside the same cage.
//!
//! The cost is that an isolate's heap is capped at four gigabytes.

use vstd::prelude::*;

use crate::gc::block::{Block, Blocks};
use crate::gc::bump::ObjectKind;
use crate::text::{
    decimal, hexadecimal, law_hexadecimal_is_one_to_one, law_signed_is_one_to_one, lemma_ends_agree,
    push_decimal, push_hexadecimal, push_signed, signed,
};

verus! {

/// The size of the cage, and therefore the largest heap a single isolate can have.
///
/// Four gigabytes, because a compressed slot has thirty two bits, and the cage is sized so that every
/// offset a slot can name is inside it.
pub const CAGE_SIZE: u64 = 4294967296;

/// Unreadable address space immediately above the cage.
///
/// Indexing arithmetic on a typed array is a thirty two bit offset added to a base inside the cage,
/// so an out of bounds index can land at most four gigabytes past the end. Nothing in that range is
/// ever made readable.
pub const GUARD_SIZE: u64 = 4294967296;

/// The alignment every object in the cage gets.
///
/// Eight bytes, which leaves the low three bits of an offset free and is what lets a compressed
/// pointer carry its tag in bit zero.
pub const OBJECT_ALIGN: usize = 8;

/// Address space that the platform has set aside for one cage and its guard region.
///
/// Two reservations that are held at the same time never overlap, so no two cages share an address.
/// Making one is the platform's business, and this is what it hands over.
#[derive(Clone, Copy, Debug, PartialEq, Eq, Structural)]
pub struct Reservation {
    /// The address of the first byte.
    pub base: u64,
    /// How many bytes the platform makes readable at a time.
    pub page: u64,
}

impl Reservation {
    /// Whether a cage and its guard region fit above the base, the low half of the base is clear, and
    /// the cage is a whole number of pages.
    pub open spec fn holds_a_cage(self) -> bool {
        &&& 0 < self.base
        &&& self.base % 4294967296 == 0
        &&& self.base + CAGE_SIZE + GUARD_SIZE <= u64::MAX
        &&& 0 < self.page
        &&& CAGE_SIZE as int % self.page as int == 0
    }
}

/// Where the page that an offset is in starts.
pub open spec fn page_floor(offset: int, page: int) -> int {
    offset / page * page
}

/// Where the pages that hold everything below an offset end.
pub open spec fn page_ceiling(offset: int, page: int) -> int {
    (offset + page - 1) / page * page
}

/// Whether making a range readable makes a byte readable: whether it is on a page that the range
/// reaches into.
pub open spec fn paged(from: int, to: int, page: int, at: int) -> bool {
    from < to && page_floor(from, page) <= at < page_ceiling(to, page)
}

/// Why address space was refused.
#[derive(Clone, Copy, Debug, PartialEq, Eq, Structural)]
pub enum ReservationError {
    /// The range is not inside the region.
    OutOfBounds {
        /// Where the range starts.
        offset: u64,
        /// How long it is.
        len: u64,
        /// How large the region is.
        size: u64,
    },
    /// Addresses on this machine are too narrow for a region this large.
    AddressSpace {
        /// How large the region would be.
        size: u64,
    },
    /// A cage cannot be laid out in this reservation.
    Unsuitable {
        /// Where the reservation starts.
        base: u64,
        /// How large its pages are.
        page: u64,
    },
}

/// Why a cage could not be created, or could not be made readable.
#[derive(Clone, Copy, Debug, PartialEq, Eq, Structural)]
pub enum CageError {
    /// The address space was refused.
    Reserve(ReservationError),
}

impl ReservationError {
    /// What the error says.
    pub open spec fn text(self) -> Seq<char> {
        match self {
            ReservationError::OutOfBounds { offset, len, size } => decimal(len as nat)
                + " bytes at "@ + decimal(offset as nat) + " are not inside the "@ + decimal(
                size as nat,
            ) + " byte region"@,
            ReservationError::AddressSpace { size } => "addresses here cannot span "@ + decimal(
                size as nat,
            ) + " bytes"@,
            ReservationError::Unsuitable { base, page } => "a cage cannot start at "@ + decimal(
                base as nat,
            ) + " with pages of "@ + decimal(page as nat) + " bytes"@,
        }
    }

    fn write(self, out: &mut String)
        ensures
            final(out)@ == old(out)@ + self.text(),
    {
        let ghost before = out@;
        match self {
            ReservationError::OutOfBounds { offset, len, size } => {
                push_decimal(out, len);
                out.append(" bytes at ");
                push_decimal(out, offset);
                out.append(" are not inside the ");
                push_decimal(out, size);
                out.append(" byte region");
            },
            ReservationError::AddressSpace { size } => {
                out.append("addresses here cannot span ");
                push_decimal(out, size);
                out.append(" bytes");
            },
            ReservationError::Unsuitable { base, page } => {
                out.append("a cage cannot start at ");
                push_decimal(out, base);
                out.append(" with pages of ");
                push_decimal(out, page);
                out.append(" bytes");
            },
        }
        assert(out@ =~= before + self.text());
    }
}

impl CageError {
    /// What the error says.
    pub open spec fn text(self) -> Seq<char> {
        match self {
            CageError::Reserve(reason) => "could not reserve the "@ + decimal(CAGE_SIZE as nat)
                + " byte cage: "@ + reason.text(),
        }
    }

    /// What the error says, for a person to read.
    pub fn to_string(&self) -> (out: String)
        ensures
            out@ == self.text(),
    {
        let mut out = String::new();
        match *self {
            CageError::Reserve(reason) => {
                out.append("could not reserve the ");
                push_decimal(&mut out, CAGE_SIZE);
                out.append(" byte cage: ");
                reason.write(&mut out);
            },
        }
        assert(out@ =~= self.text());
        out
    }
}

/// Where one allocation ends, given where it starts and what it is.
pub open spec fn extent_end(offset: int, extent: (ObjectKind, nat)) -> int {
    offset + extent.1
}

/// One isolate's heap region.
///
/// The base is aligned to [`CAGE_SIZE`], which is the property the whole scheme rests on: the low
/// thirty two bits of the base are zero, so the offset and the base never interfere and turning one
/// into an address is an addition with no carry.
pub struct Cage {
    reservation: Reservation,
    /// The bytes from the bottom of the cage up, zero wherever nothing is readable.
    bytes: Vec<u8>,
    /// Which offsets are readable.
    readable: Ghost<Set<int>>,
    /// Where each allocation starts, what it is for and how many bytes it asked for.
    extents: Ghost<Map<int, (ObjectKind, nat)>>,
}

impl View for Cage {
    type V = Blocks;

    /// The allocations in the cage, each with what it holds.
    closed spec fn view(&self) -> Blocks {
        Map::new(
            |offset: int| self.extents@.contains_key(offset),
            |offset: int|
                Block {
                    kind: self.extents@[offset].0,
                    bytes: self.bytes@.subrange(offset, extent_end(offset, self.extents@[offset])),
                },
        )
    }
}

impl Cage {
    /// The address of the first byte of the cage.
    pub closed spec fn base_address(&self) -> u64 {
        self.reservation.base
    }

    /// How many bytes become readable at a time.
    pub closed spec fn page_size(&self) -> u64 {
        self.reservation.page
    }

    /// The readable bytes, each under its offset.
    pub closed spec fn memory(&self) -> Map<int, u8> {
        Map::new(|i: int| self.readable@.contains(i), |i: int| self.bytes@[i])
    }

    /// Whether every allocation ends at or below `limit`.
    pub closed spec fn ends_by(&self, limit: int) -> bool {
        forall|offset: int| #[trigger]
            self.extents@.contains_key(offset) ==> extent_end(offset, self.extents@[offset]) <= limit
    }

    /// The reservation holds a cage, the readable bytes are inside it, and the allocations are
    /// aligned, readable and do not overlap.
    pub closed spec fn laid_out(&self) -> bool {
        &&& usize::MAX >= CAGE_SIZE
        &&& self.reservation.holds_a_cage()
        &&& self.bytes@.len() <= CAGE_SIZE
        &&& forall|i: int| #[trigger] self.readable@.contains(i) ==> 0 <= i < self.bytes@.len()
        &&& forall|i: int|
            0 <= i < self.bytes@.len() && !self.readable@.contains(i) ==> #[trigger] self.bytes@[i]
                == 0
        &&& forall|offset: int| #[trigger]
            self.extents@.contains_key(offset) ==> {
                &&& 0 <= offset
                &&& offset % 8 == 0
                &&& 0 < self.extents@[offset].1
                &&& extent_end(offset, self.extents@[offset]) <= self.bytes@.len()
            }
        &&& forall|offset: int, i: int|
            #![trigger self.extents@.contains_key(offset), self.readable@.contains(i)]
            self.extents@.contains_key(offset) && offset <= i < extent_end(
                offset,
                self.extents@[offset],
            ) ==> self.readable@.contains(i)
        &&& forall|low: int, high: int|
            #![trigger self.extents@.contains_key(low), self.extents@.contains_key(high)]
            self.extents@.contains_key(low) && self.extents@.contains_key(high) && low < high
                ==> extent_end(low, self.extents@[low]) <= high
    }

    /// Lay a cage out in a reservation, with its guard region above it.
    ///
    /// Nothing is readable yet, so this costs address space and no memory.
    ///
    /// # Errors
    ///
    /// Returns [`CageError::Reserve`] on a machine whose addresses cannot span the cage, and for a
    /// reservation that cannot hold one.
    pub fn new(reservation: Reservation) -> (cage: Result<Cage, CageError>)
        ensures
            cage is Ok <==> usize::MAX >= CAGE_SIZE && reservation.holds_a_cage(),
            cage matches Ok(cage) ==> {
                &&& cage.laid_out()
                &&& cage.memory() == Map::<int, u8>::empty()
                &&& cage@ == Map::<int, Block>::empty()
                &&& cage.ends_by(0)
                &&& cage.base_address() == reservation.base
                &&& cage.page_size() == reservation.page
            },
            cage matches Err(error) ==> error == CageError::Reserve(
                if usize::MAX < CAGE_SIZE {
                    ReservationError::AddressSpace { size: (CAGE_SIZE + GUARD_SIZE) as u64 }
                } else {
                    ReservationError::Unsuitable { base: reservation.base, page: reservation.page }
                },
            ),
    {
        if (usize::MAX as u64) < CAGE_SIZE {
            return Err(
                CageError::Reserve(
                    ReservationError::AddressSpace { size: CAGE_SIZE + GUARD_SIZE },
                ),
            );
        }
        let base: u64 = reservation.base;
        let page: u64 = reservation.page;
        if base == 0 || base % 4294967296 != 0 || base > u64::MAX - CAGE_SIZE - GUARD_SIZE || page == 0
            || CAGE_SIZE % page != 0 {
            return Err(CageError::Reserve(ReservationError::Unsuitable { base, page }));
        }
        let cage = Cage {
            reservation,
            bytes: Vec::new(),
            readable: Ghost(Set::empty()),
            extents: Ghost(Map::empty()),
        };
        assert(cage@ =~= Map::<int, Block>::empty());
        assert(cage.memory() =~= Map::<int, u8>::empty());
        Ok(cage)
    }

    /// The address of the first byte of the cage.
    ///
    /// This is the value that gets pinned into a register, so that decompression in generated code
    /// does not have to load it.
    #[must_use]
    pub fn base(&self) -> (base: u64)
        requires
            self.laid_out(),
        ensures
            base == self.base_address(),
            base % 4294967296 == 0,
            0 < base,
    {
        self.reservation.base
    }

    /// How the cage is written for a person: where it is and how large.
    pub open spec fn text(&self) -> Seq<char> {
        "Cage { base: 0x"@ + hexadecimal(self.base_address() as nat) + ", size: "@ + decimal(
            CAGE_SIZE as nat,
        ) + ", guard: "@ + decimal(GUARD_SIZE as nat) + " }"@
    }

    /// The cage for a person to read.
    pub fn to_string(&self) -> (out: String)
        ensures
            out@ == self.text(),
    {
        let mut out = String::new();
        out.append("Cage { base: 0x");
        push_hexadecimal(&mut out, self.reservation.base);
        out.append(", size: ");
        push_decimal(&mut out, CAGE_SIZE);
        out.append(", guard: ");
        push_decimal(&mut out, GUARD_SIZE);
        out.append(" }");
        assert(out@ =~= self.text());
        out
    }

    /// Make the cage readable and writable from `from` up to `to`.
    ///
    /// Rounded out to whole pages. The caller passes the range it is adding rather than the new high
    /// water mark, so that a heap growing one chunk at a time asks for one chunk each time. What was
    /// readable keeps its contents, and what becomes readable is zero.
    ///
    /// # Errors
    ///
    /// Returns [`CageError::Reserve`] if the range leaves the cage or runs backwards.
    pub fn commit_range(&mut self, from: u64, to: u64) -> (outcome: Result<(), CageError>)
        requires
            old(self).laid_out(),
        ensures
            final(self).laid_out(),
            final(self).base_address() == old(self).base_address(),
            final(self).page_size() == old(self).page_size(),
            final(self)@ == old(self)@,
            forall|limit: int| old(self).ends_by(limit) ==> final(self).ends_by(limit),
            outcome is Ok <==> from <= to <= CAGE_SIZE,
            outcome is Err ==> *final(self) == *old(self),
            outcome is Ok ==> final(self).memory() == Map::new(
                |i: int|
                    old(self).memory().contains_key(i) || paged(
                        from as int,
                        to as int,
                        old(self).page_size() as int,
                        i,
                    ),
                |i: int|
                    if old(self).memory().contains_key(i) {
                        old(self).memory()[i]
                    } else {
                        0
                    },
            ),
            outcome matches Err(error) ==> error == CageError::Reserve(
                ReservationError::OutOfBounds {
                    offset: from,
                    len: if to > from {
                        (to - from) as u64
                    } else {
                        0
                    },
                    size: CAGE_SIZE,
                },
            ),
    {
        if to > CAGE_SIZE || from > to {
            return Err(
                CageError::Reserve(
                    ReservationError::OutOfBounds {
                        offset: from,
                        len: to.saturating_sub(from),
                        size: CAGE_SIZE,
                    },
                ),
            );
        }
        let ghost before = *self;
        let page: u64 = self.reservation.page;
        proof {
            lemma_pages_stay_inside(from as int, to as int, page as int);
        }
        if from < to {
            let end: u64 = (to + (page - 1)) / page * page;
            assert(end == page_ceiling(to as int, page as int));
            if end as usize > self.bytes.len() {
                self.bytes.resize(end as usize, 0);
            }
        }
        self.readable = Ghost(
            Set::new(
                |i: int|
                    before.readable@.contains(i) || paged(from as int, to as int, page as int, i),
            ),
        );
        proof {
            assert forall|i: int| 0 <= i < self.bytes@.len() implies #[trigger] self.bytes@[i] == (
            if before.readable@.contains(i) {
                before.bytes@[i]
            } else {
                0
            }) by {
                if i < before.bytes@.len() {
                    assert(self.bytes@[i] == before.bytes@[i]);
                } else {
                    assert(!before.readable@.contains(i));
                }
            }
            assert forall|i: int| #[trigger] self.readable@.contains(i) implies 0 <= i
                < self.bytes@.len() by {
                if !before.readable@.contains(i) {
                    assert(paged(from as int, to as int, page as int, i));
                }
            }
            assert forall|offset: int| before.extents@.contains_key(offset) implies before.bytes@.subrange(
                offset,
                extent_end(offset, before.extents@[offset]),
            ) == #[trigger] self.bytes@.subrange(
                offset,
                extent_end(offset, before.extents@[offset]),
            ) by {
                assert(before.bytes@.subrange(offset, extent_end(offset, before.extents@[offset]))
                    =~= self.bytes@.subrange(offset, extent_end(offset, before.extents@[offset])));
            }
            assert(self@ =~= before@);
            let after = Map::new(
                |i: int|
                    before.memory().contains_key(i) || paged(
                        from as int,
                        to as int,
                        before.page_size() as int,
                        i,
                    ),
                |i: int|
                    if before.memory().contains_key(i) {
                        before.memory()[i]
                    } else {
                        0
                    },
            );
            assert(self.memory() =~= after);
        }
        Ok(())
    }

    /// Give the range from `bytes` to the end of the committed region back.
    ///
    /// Only whole pages can be given back. No byte of a page that lies inside the range is readable
    /// afterwards, every byte of a page outside it is as it was, and an allocation that reaches into
    /// what was given back is gone. What becomes of a page that the range covers in part is not
    /// promised, beyond that it keeps its contents if it stays readable.
    ///
    /// # Errors
    ///
    /// Returns [`CageError::Reserve`] if the range leaves the cage or runs backwards.
    pub fn decommit_from(&mut self, bytes: u64, committed: u64) -> (outcome: Result<(), CageError>)
        requires
            old(self).laid_out(),
        ensures
            final(self).laid_out(),
            final(self).base_address() == old(self).base_address(),
            final(self).page_size() == old(self).page_size(),
            outcome is Ok <==> bytes <= committed <= CAGE_SIZE,
            outcome is Err ==> *final(self) == *old(self),
            outcome matches Err(error) ==> error == CageError::Reserve(
                ReservationError::OutOfBounds {
                    offset: bytes,
                    len: if committed > bytes {
                        (committed - bytes) as u64
                    } else {
                        0
                    },
                    size: CAGE_SIZE,
                },
            ),
            forall|i: int| #[trigger]
                final(self).memory().contains_key(i) ==> old(self).memory().contains_key(i)
                    && final(self).memory()[i] == old(self).memory()[i],
            outcome is Ok ==> forall|i: int| #[trigger]
                old(self).memory().contains_key(i) && !paged(
                    bytes as int,
                    committed as int,
                    old(self).page_size() as int,
                    i,
                ) ==> final(self).memory().contains_key(i),
            outcome is Ok ==> forall|i: int|
                page_ceiling(bytes as int, old(self).page_size() as int) <= i < page_floor(
                    committed as int,
                    old(self).page_size() as int,
                ) ==> !#[trigger] final(self).memory().contains_key(i),
            outcome is Ok && bytes as int % old(self).page_size() as int == 0 && committed as int
                % old(self).page_size() as int == 0 ==> final(self).memory() == Map::new(
                |i: int| old(self).memory().contains_key(i) && !(bytes <= i < committed),
                |i: int| old(self).memory()[i],
            ),
            forall|offset: int| #[trigger]
                final(self)@.contains_key(offset) ==> old(self)@.contains_key(offset)
                    && final(self)@[offset] == old(self)@[offset],
            outcome is Ok ==> forall|offset: int| #[trigger]
                old(self)@.contains_key(offset) && (forall|i: int|
                    offset <= i < offset + old(self)@[offset].bytes.len()
                        ==> #[trigger] final(self).memory().contains_key(i))
                    ==> final(self)@.contains_key(offset),
    {
        if committed > CAGE_SIZE || bytes > committed {
            return Err(
                CageError::Reserve(
                    ReservationError::OutOfBounds {
                        offset: bytes,
                        len: committed.saturating_sub(bytes),
                        size: CAGE_SIZE,
                    },
                ),
            );
        }
        let ghost before = *self;
        let page: u64 = self.reservation.page;
        proof {
            lemma_pages_stay_inside(bytes as int, bytes as int, page as int);
            lemma_pages_stay_inside(bytes as int, committed as int, page as int);
            lemma_pages_stay_inside(committed as int, committed as int, page as int);
            lemma_whole_pages(bytes as int, page as int);
            lemma_whole_pages(committed as int, page as int);
        }
        let from: u64 = (bytes + (page - 1)) / page * page;
        let to: u64 = committed / page * page;
        assert(from == page_ceiling(bytes as int, page as int));
        assert(to == page_floor(committed as int, page as int));
        if from < to {
            self.give_back(from, to);
        }
        proof {
            let after = Map::new(
                |i: int| before.memory().contains_key(i) && !(bytes <= i < committed),
                |i: int| before.memory()[i],
            );
            if bytes as int % page as int == 0 && committed as int % page as int == 0 {
                assert(self.memory() =~= after);
            }
            assert forall|offset: int| #[trigger]
                before@.contains_key(offset) && (forall|i: int|
                    offset <= i < offset + before@[offset].bytes.len()
                        ==> #[trigger] self.memory().contains_key(i)) implies self@.contains_key(
                offset,
            ) by {
                before.lemma_allocations_are_inside(offset);
                let last = offset + before@[offset].bytes.len() - 1;
                if from < to && !self@.contains_key(offset) {
                    let reached: int = if offset < from {
                        from as int
                    } else {
                        offset
                    };
                    assert(offset <= reached <= last);
                    assert(self.memory().contains_key(reached));
                }
            }
        }
        Ok(())
    }

    /// Stop a range from being readable, and forget the allocations that reach into it.
    fn give_back(&mut self, from: u64, to: u64)
        requires
            old(self).laid_out(),
            from < to <= CAGE_SIZE,
        ensures
            final(self).laid_out(),
            final(self).base_address() == old(self).base_address(),
            final(self).page_size() == old(self).page_size(),
            final(self).memory() == Map::new(
                |i: int| old(self).memory().contains_key(i) && !(from <= i < to),
                |i: int| old(self).memory()[i],
            ),
            forall|offset: int| #[trigger]
                final(self)@.contains_key(offset) <==> old(self)@.contains_key(offset) && (offset
                    + old(self)@[offset].bytes.len() <= from || to <= offset),
            forall|offset: int| #[trigger]
                final(self)@.contains_key(offset) ==> final(self)@[offset] == old(self)@[offset],
    {
        let ghost before = *self;
        if to as usize >= self.bytes.len() {
            if (from as usize) < self.bytes.len() {
                self.bytes.truncate(from as usize);
            }
        } else {
            let mut at: usize = from as usize;
            while at < to as usize
                invariant
                    from <= at <= to,
                    to < before.bytes@.len(),
                    to <= CAGE_SIZE <= usize::MAX,
                    self.reservation == before.reservation,
                    self.readable == before.readable,
                    self.extents == before.extents,
                    self.bytes@.len() == before.bytes@.len(),
                    forall|i: int|
                        0 <= i < self.bytes@.len() ==> #[trigger] self.bytes@[i] == if from <= i
                            < at {
                            0
                        } else {
                            before.bytes@[i]
                        },
                decreases to - at,
            {
                self.bytes[at] = 0;
                at = at + 1;
            }
        }
        let ghost kept = Map::new(
            |offset: int|
                before.extents@.contains_key(offset) && (extent_end(offset, before.extents@[offset])
                    <= from || to <= offset),
            |offset: int| before.extents@[offset],
        );
        self.extents = Ghost(kept);
        self.readable = Ghost(
            Set::new(|i: int| before.readable@.contains(i) && !(from <= i < to)),
        );
        proof {
            assert forall|offset: int| #[trigger] self.extents@.contains_key(offset) implies {
                &&& extent_end(offset, self.extents@[offset]) <= self.bytes@.len()
                &&& self.bytes@.subrange(offset, extent_end(offset, self.extents@[offset]))
                    == before.bytes@.subrange(offset, extent_end(offset, self.extents@[offset]))
            } by {
                assert(before.extents@.contains_key(offset));
                assert(self.bytes@.subrange(offset, extent_end(offset, self.extents@[offset]))
                    =~= before.bytes@.subrange(offset, extent_end(offset, self.extents@[offset])));
            }
            assert forall|offset: int, i: int|
                #![trigger self.extents@.contains_key(offset), self.readable@.contains(i)]
                self.extents@.contains_key(offset) && offset <= i < extent_end(
                    offset,
                    self.extents@[offset],
                ) implies self.readable@.contains(i) by {
                assert(before.extents@.contains_key(offset));
                assert(before.readable@.contains(i));
            }
            assert forall|offset: int| #[trigger] self@.contains_key(offset) <==> before@.contains_key(
                offset,
            ) && (offset + before@[offset].bytes.len() <= from || to <= offset) by {
                if before@.contains_key(offset) {
                    assert(before.extents@.contains_key(offset));
                }
            }
            let after = Map::new(
                |i: int| before.memory().contains_key(i) && !(from <= i < to),
                |i: int| before.memory()[i],
            );
            assert(self.memory() =~= after);
        }
    }

    /// Whether `address` points inside the cage.
    ///
    /// The guard region is deliberately not inside. An address in the guard is a bug that we want to
    /// see as a bug, not as a valid pointer that happens to fault later.
    #[must_use]
    pub fn contains(&self, address: u64) -> (inside: bool)
        requires
            self.laid_out(),
        ensures
            inside == (self.base_address() <= address < self.base_address() + CAGE_SIZE),
    {
        address >= self.reservation.base && address < self.reservation.base + CAGE_SIZE
    }

    /// Turn an address inside the cage into an offset from the base.
    ///
    /// Returns `None` for an address outside the cage rather than producing an offset that would
    /// decompress to somewhere else, because a silently wrong pointer is the failure mode the cage
    /// exists to prevent.
    #[must_use]
    pub fn offset_of(&self, address: u64) -> (offset: Option<u32>)
        requires
            self.laid_out(),
        ensures
            offset is Some <==> self.base_address() <= address < self.base_address() + CAGE_SIZE,
            offset matches Some(found) ==> found == address - self.base_address(),
    {
        if !self.contains(address) {
            return None;
        }
        Some((address - self.reservation.base) as u32)
    }

    /// Turn an offset from the base back into an address.
    ///
    /// Every `u32` is a valid offset, which is why this returns an address rather than an option. A
    /// wrong offset lands somewhere else in the cage, by construction.
    #[must_use]
    pub fn address_of(&self, offset: u32) -> (address: u64)
        requires
            self.laid_out(),
        ensures
            address == self.base_address() + offset,
    {
        self.reservation.base + offset as u64
    }

    /// A machine that can have a cage has addresses wide enough for every offset in it.
    pub proof fn lemma_addresses_are_wide(&self)
        requires
            self.laid_out(),
        ensures
            usize::MAX >= CAGE_SIZE,
            forall|i: int| #[trigger] self.memory().contains_key(i) ==> 0 <= i < CAGE_SIZE,
            0 < self.base_address(),
            0 < self.page_size(),
            CAGE_SIZE as int % self.page_size() as int == 0,
    {
    }

    /// Every allocation is aligned, holds something and ends where `ends_by` says it does.
    pub proof fn lemma_ends_by_holds_of_each(&self, limit: int, offset: int)
        requires
            self.laid_out(),
            self.ends_by(limit),
            self@.contains_key(offset),
        ensures
            0 <= offset,
            offset % 8 == 0,
            0 < self@[offset].bytes.len(),
            offset + self@[offset].bytes.len() <= limit,
    {
        assert(self.extents@.contains_key(offset));
    }

    /// Every allocation is aligned and inside the cage.
    pub proof fn lemma_allocations_are_inside(&self, offset: int)
        requires
            self.laid_out(),
            self@.contains_key(offset),
        ensures
            0 <= offset,
            offset % 8 == 0,
            0 < self@[offset].bytes.len(),
            offset + self@[offset].bytes.len() <= CAGE_SIZE,
    {
        assert(self.extents@.contains_key(offset));
    }

    /// An allocation ends before the next one starts.
    pub proof fn lemma_allocations_do_not_overlap(&self, low: int, high: int)
        requires
            self.laid_out(),
            self@.contains_key(low),
            self@.contains_key(high),
            low < high,
        ensures
            low + self@[low].bytes.len() <= high,
    {
        assert(self.extents@.contains_key(low));
        assert(self.extents@.contains_key(high));
    }

    /// An allocation holds what the readable bytes it lies in hold.
    pub proof fn law_an_allocation_is_its_bytes(&self, offset: int, at: int)
        requires
            self.laid_out(),
            self@.contains_key(offset),
            0 <= at < self@[offset].bytes.len(),
        ensures
            self.memory().contains_key(offset + at),
            self@[offset].bytes[at] == self.memory()[offset + at],
    {
        assert(self.extents@.contains_key(offset));
        assert(self.readable@.contains(offset + at));
    }

    /// The byte at an offset, which has to be readable.
    pub fn read_byte(&self, offset: u64) -> (byte: u8)
        requires
            self.laid_out(),
            self.memory().contains_key(offset as int),
        ensures
            byte == self.memory()[offset as int],
    {
        self.bytes[offset as usize]
    }

    /// Write the byte at an offset, which has to be readable.
    pub fn write_byte(&mut self, offset: u64, value: u8)
        requires
            old(self).laid_out(),
            old(self).memory().contains_key(offset as int),
        ensures
            final(self).laid_out(),
            final(self).base_address() == old(self).base_address(),
            final(self).page_size() == old(self).page_size(),
            final(self).memory() == old(self).memory().insert(offset as int, value),
            final(self)@.dom() == old(self)@.dom(),
            forall|start: int| #[trigger]
                old(self)@.contains_key(start) ==> final(self)@[start] == (Block {
                    kind: old(self)@[start].kind,
                    bytes: Seq::new(
                        old(self)@[start].bytes.len(),
                        |k: int| final(self).memory()[start + k],
                    ),
                }),
            forall|limit: int| old(self).ends_by(limit) ==> final(self).ends_by(limit),
    {
        let ghost before = *self;
        self.bytes[offset as usize] = value;
        proof {
            assert(self@.dom() =~= before@.dom());
            assert(self.memory() =~= before.memory().insert(offset as int, value));
            assert forall|start: int| #[trigger] before@.contains_key(start) implies self@[start] == (
            Block {
                kind: before@[start].kind,
                bytes: Seq::new(
                    before@[start].bytes.len(),
                    |k: int| self.memory()[start + k],
                ),
            }) by {
                assert(before.extents@.contains_key(start));
                assert forall|k: int| 0 <= k < before@[start].bytes.len() implies #[trigger] self.memory()[start
                    + k] == self@[start].bytes[k] by {
                    assert(self.readable@.contains(start + k));
                }
                assert(self@[start].bytes =~= Seq::new(
                    before@[start].bytes.len(),
                    |k: int| self.memory()[start + k],
                ));
            }
        }
    }

    /// One byte of an allocation.
    pub(crate) fn get_u8(&self, offset: u32, at: usize) -> (byte: u8)
        requires
            self.laid_out(),
            self@.contains_key(offset as int),
            at < self@[offset as int].bytes.len(),
        ensures
            byte == self@[offset as int].bytes[at as int],
    {
        assert(self.extents@.contains_key(offset as int));
        self.bytes[offset as usize + at]
    }

    /// Change one byte of an allocation, which changes nothing in any other.
    pub(crate) fn put_u8(&mut self, offset: u32, at: usize, value: u8)
        requires
            old(self).laid_out(),
            old(self)@.contains_key(offset as int),
            at < old(self)@[offset as int].bytes.len(),
        ensures
            final(self).laid_out(),
            final(self).base_address() == old(self).base_address(),
            final(self)@ == old(self)@.insert(
                offset as int,
                old(self)@[offset as int].put_u8(at as int, value),
            ),
            final(self).page_size() == old(self).page_size(),
            final(self).memory() == old(self).memory().insert(offset + at, value),
            forall|limit: int| old(self).ends_by(limit) ==> #[trigger] final(self).ends_by(limit),
    {
        let ghost before = *self;
        assert(before.extents@.contains_key(offset as int));
        self.bytes[offset as usize + at] = value;
        proof {
            let after = before@.insert(
                offset as int,
                before@[offset as int].put_u8(at as int, value),
            );
            assert forall|other: int| #[trigger] before.extents@.contains_key(other) implies self@[other]
                == after[other] by {
                let end = extent_end(other, before.extents@[other]);
                if other == offset {
                    assert(self.bytes@.subrange(other, end) =~= before.bytes@.subrange(
                        other,
                        end,
                    ).update(at as int, value));
                } else {
                    assert(before.extents@.contains_key(offset as int));
                    assert(self.bytes@.subrange(other, end) =~= before.bytes@.subrange(
                        other,
                        end,
                    ));
                }
            }
            assert(self@ =~= after);
            assert(before.readable@.contains(offset + at));
            assert(self.memory() =~= before.memory().insert(offset + at, value));
        }
    }

    /// Note that an allocation starts at `offset`, above every other, in bytes that are zero.
    pub(crate) fn claim(&mut self, offset: u64, size: u64, kind: ObjectKind)
        requires
            old(self).laid_out(),
            offset % 8 == 0,
            0 < size,
            old(self).ends_by(offset as int),
            forall|i: int|
                offset <= i < offset + size ==> #[trigger] old(self).memory().contains_key(i)
                    && old(self).memory()[i] == 0,
        ensures
            final(self).laid_out(),
            final(self).base_address() == old(self).base_address(),
            final(self).page_size() == old(self).page_size(),
            final(self).memory() == old(self).memory(),
            !old(self)@.contains_key(offset as int),
            final(self)@ == old(self)@.insert(offset as int, Block::fresh(kind, size as nat)),
            forall|limit: int|
                offset + size <= limit ==> #[trigger] final(self).ends_by(limit),
    {
        let ghost before = *self;
        self.extents = Ghost(before.extents@.insert(offset as int, (kind, size as nat)));
        proof {
            assert(!before.extents@.contains_key(offset as int));
            assert forall|i: int| offset <= i < offset + size implies self.readable@.contains(i)
                && self.bytes@[i] == 0 by {
                assert(before.memory().contains_key(i));
            }
            assert(self.readable@.contains(offset + size - 1));
            assert(self.bytes@.subrange(offset as int, offset + size) =~= Block::fresh(
                kind,
                size as nat,
            ).bytes);
            assert(self@ =~= before@.insert(offset as int, Block::fresh(kind, size as nat)));
        }
    }
}

/// The pages of a range inside the cage are inside the cage and hold the range.
proof fn lemma_pages_stay_inside(from: int, to: int, page: int)
    requires
        0 <= from <= to <= CAGE_SIZE,
        0 < page,
        CAGE_SIZE as int % page == 0,
    ensures
        0 <= page_floor(from, page) <= from,
        to <= page_ceiling(to, page) <= CAGE_SIZE,
        page <= CAGE_SIZE,
{
    assert(0 <= from / page * page <= from) by (nonlinear_arith)
        requires
            0 <= from,
            0 < page,
    ;
    let size = CAGE_SIZE as int;
    assert(size / page * page == size) by (nonlinear_arith)
        requires
            size % page == 0,
            0 < page,
    ;
    assert(page <= size) by (nonlinear_arith)
        requires
            size / page * page == size,
            0 < page,
            0 < size,
    ;
    assert(to <= (to + page - 1) / page * page) by (nonlinear_arith)
        requires
            0 <= to,
            0 < page,
    ;
    assert((to + page - 1) / page <= size / page) by (nonlinear_arith)
        requires
            to <= size,
            0 <= to,
            0 < page,
            size / page * page == size,
    ;
    assert((to + page - 1) / page * page <= size / page * page) by (nonlinear_arith)
        requires
            (to + page - 1) / page <= size / page,
            0 < page,
    ;
}

/// An offset that is a whole number of pages is where a page starts and where one ends.
proof fn lemma_whole_pages(offset: int, page: int)
    requires
        0 <= offset,
        0 < page,
    ensures
        offset % page == 0 ==> page_floor(offset, page) == offset && page_ceiling(offset, page)
            == offset,
        page_floor(offset, page) <= page_ceiling(offset, page),
{
    if offset % page == 0 {
        assert(offset / page * page == offset) by (nonlinear_arith)
            requires
                offset % page == 0,
                0 < page,
        ;
        assert((offset + page - 1) / page * page == offset) by (nonlinear_arith)
            requires
                offset % page == 0,
                0 <= offset,
                0 < page,
        ;
    }
    assert(offset / page * page <= (offset + page - 1) / page * page) by (nonlinear_arith)
        requires
            0 <= offset,
            0 < page,
    ;
}

/// A range that is made readable is readable, whatever the size of a page, and a range of whole pages
/// makes nothing else readable.
pub proof fn law_a_range_is_on_its_pages(from: int, to: int, page: int, at: int)
    requires
        0 <= from <= to <= CAGE_SIZE,
        0 < page,
        CAGE_SIZE as int % page == 0,
    ensures
        from <= at < to ==> paged(from, to, page, at),
        paged(from, to, page, at) ==> 0 <= at < CAGE_SIZE,
        from % page == 0 && to % page == 0 ==> (paged(from, to, page, at) <==> from <= at < to),
{
    lemma_pages_stay_inside(from, to, page);
    lemma_whole_pages(from, page);
    lemma_whole_pages(to, page);
}

/// An offset survives a trip through an address: the address of an offset is inside the cage and
/// compresses to that offset, and an address inside the cage decompresses to itself.
pub proof fn law_an_offset_survives_a_trip_through_an_address(base: int, offset: u32, address: int)
    requires
        0 <= base,
    ensures
        base <= base + offset < base + CAGE_SIZE,
        (base + offset) - base == offset,
        base <= address < base + CAGE_SIZE ==> base + (address - base) == address && 0 <= address
            - base <= u32::MAX,
{
}

/// Cages that start at different addresses share none: an address inside one is not inside the other,
/// so it has no offset there.
pub proof fn law_cages_at_different_places_share_no_address(left: &Cage, right: &Cage, address: int)
    requires
        left.laid_out(),
        right.laid_out(),
        left.base_address() != right.base_address(),
        left.base_address() <= address < left.base_address() + CAGE_SIZE,
    ensures
        !(right.base_address() <= address < right.base_address() + CAGE_SIZE),
{
}

/// A thirty two bit value as it is stored in a heap slot.
///
/// The tag is bit zero. A zero there means the rest is a thirty one bit signed integer. A one there
/// means the rest is an offset into the cage, which works because objects are eight byte aligned so
/// the low three bits of a real offset are always zero.
///
/// A consequence worth knowing: a slot of all zero bits is the integer zero. Freshly committed pages
/// read as zero, so an uninitialised slot is a valid number rather than a trap representation.
#[derive(Clone, Copy, Debug, PartialEq, Eq, Hash, Structural)]
pub struct Slot(pub u32);

/// The most negative integer a slot can hold inline.
pub const SMI_MIN: i32 = -1073741824;

/// The largest integer a slot can hold inline.
pub const SMI_MAX: i32 = 1073741823;

impl Slot {
    /// The integer zero, which is also what a freshly committed page is full of.
    #[must_use]
    pub fn zero() -> (slot: Slot)
        ensures
            slot == Slot::of_integer(0),
            slot == Slot(0),
    {
        Slot(0)
    }

    /// Whether the tag says pointer.
    pub open spec fn points(self) -> bool {
        self.0 % 2 == 1
    }

    /// The integer in a slot whose tag says integer.
    pub open spec fn integer(self) -> int {
        if self.0 < 2147483648 {
            self.0 as int / 2
        } else {
            self.0 as int / 2 - 2147483648
        }
    }

    /// The offset in a slot whose tag says pointer.
    pub open spec fn target(self) -> int {
        self.0 - 1
    }

    /// The slot for an integer.
    pub open spec fn of_integer(n: int) -> Slot {
        if n >= 0 {
            Slot((2 * n) as u32)
        } else {
            Slot((2 * n + 4294967296) as u32)
        }
    }

    /// The slot for an offset.
    pub open spec fn of_target(offset: int) -> Slot {
        Slot((offset + 1) as u32)
    }

    /// How a slot is written for a person: which half of the scheme it is in, and what it holds.
    pub open spec fn text(self) -> Seq<char> {
        if self.points() {
            "cage+0x"@ + hexadecimal(self.target() as nat)
        } else {
            signed(self.integer()) + "smi"@
        }
    }

    /// Store an integer inline, if it fits in thirty one bits.
    ///
    /// Returns `None` outside [`SMI_MIN`] and [`SMI_MAX`]. The caller boxes it as a heap number in
    /// that case.
    #[must_use]
    pub fn from_smi(n: i32) -> (slot: Option<Slot>)
        ensures
            slot is Some <==> SMI_MIN <= n <= SMI_MAX,
            slot matches Some(stored) ==> stored == Slot::of_integer(n as int) && !stored.points()
                && stored.integer() == n,
    {
        if n < SMI_MIN || n > SMI_MAX {
            return None;
        }
        if n >= 0 {
            Some(Slot(n as u32 * 2))
        } else {
            Some(Slot((n as i64 * 2 + 4294967296) as u32))
        }
    }

    /// Store an offset into the cage.
    ///
    /// Every object in the cage is aligned by the allocator, so only an aligned offset can be stored.
    #[must_use]
    pub fn from_offset(offset: u32) -> (slot: Slot)
        requires
            offset % 8 == 0,
        ensures
            slot == Slot::of_target(offset as int),
            slot.points(),
            slot.target() == offset,
    {
        Slot(offset + 1)
    }

    /// Whether this slot holds an inline integer.
    #[must_use]
    pub fn is_smi(self) -> (smi: bool)
        ensures
            smi == !self.points(),
    {
        self.0 % 2 == 0
    }

    /// Whether this slot holds an offset into the cage.
    #[must_use]
    pub fn is_pointer(self) -> (pointer: bool)
        ensures
            pointer == self.points(),
    {
        self.0 % 2 == 1
    }

    /// The inline integer, if this slot holds one.
    #[must_use]
    pub fn as_smi(self) -> (n: Option<i32>)
        ensures
            n is Some <==> !self.points(),
            n matches Some(found) ==> found == self.integer(),
    {
        if self.is_smi() {
            let half: i64 = (self.0 / 2) as i64;
            if self.0 < 2147483648 {
                Some(half as i32)
            } else {
                Some((half - 2147483648) as i32)
            }
        } else {
            None
        }
    }

    /// The cage offset, if this slot holds one.
    #[must_use]
    pub fn as_offset(self) -> (offset: Option<u32>)
        ensures
            offset is Some <==> self.points(),
            offset matches Some(found) ==> found == self.target(),
    {
        if self.is_pointer() {
            Some(self.0 - 1)
        } else {
            None
        }
    }

    /// The raw thirty two bits, for writing into a slot.
    #[must_use]
    pub fn to_bits(self) -> (bits: u32)
        ensures
            bits == self.0,
    {
        self.0
    }

    /// Rebuild a slot from raw bits read out of the heap.
    #[must_use]
    pub fn from_bits(bits: u32) -> (slot: Slot)
        ensures
            slot == Slot(bits),
    {
        Slot(bits)
    }

    /// The slot for a person to read: `-7smi` or `cage+0x20`.
    pub fn to_string(&self) -> (out: String)
        ensures
            out@ == self.text(),
    {
        let mut out = String::new();
        match self.as_smi() {
            Some(n) => {
                push_signed(&mut out, n as i64);
                out.append("smi");
            },
            None => {
                out.append("cage+0x");
                push_hexadecimal(&mut out, (self.0 - 1) as u64);
            },
        }
        assert(out@ =~= self.text());
        out
    }
}

/// Every integer that fits survives a trip through a slot, and no two integers share a slot.
pub proof fn law_integers_survive_a_slot(n: int, m: int)
    requires
        SMI_MIN <= n <= SMI_MAX,
        SMI_MIN <= m <= SMI_MAX,
    ensures
        !Slot::of_integer(n).points(),
        Slot::of_integer(n).integer() == n,
        Slot::of_integer(n) == Slot::of_integer(m) <==> n == m,
{
}

/// Every offset an object can have survives a trip through a slot.
pub proof fn law_offsets_survive_a_slot(offset: u32, other: u32)
    requires
        offset % 8 == 0,
        other % 8 == 0,
    ensures
        Slot::of_target(offset as int).points(),
        Slot::of_target(offset as int).target() == offset,
        Slot::of_target(offset as int) == Slot::of_target(other as int) <==> offset == other,
{
}

/// A slot that holds an offset is never one that holds an integer, and a slot of all zero bits is the
/// integer zero.
pub proof fn law_a_pointer_never_looks_like_an_integer(n: int, offset: u32)
    requires
        SMI_MIN <= n <= SMI_MAX,
        offset % 8 == 0,
    ensures
        Slot::of_integer(n) != Slot::of_target(offset as int),
        Slot::of_integer(0) == Slot(0),
        Slot(0).integer() == 0,
{
}

/// Two slots are written alike only if they are the same slot, so a slot can be told by its text.
pub proof fn law_a_slot_is_its_text(left: Slot, right: Slot)
    ensures
        left.text() == right.text() <==> left == right,
{
    reveal_strlit("cage+0x");
    assert("cage+0x"@.len() == 7 && "cage+0x"@[0] == 'c');
    if left.text() == right.text() {
        law_signed_is_one_to_one(left.integer(), right.integer());
        law_signed_is_one_to_one(right.integer(), left.integer());
        if left.points() && right.points() {
            let a = hexadecimal(left.target() as nat);
            let b = hexadecimal(right.target() as nat);
            lemma_ends_agree("cage+0x"@, a, b);
            law_hexadecimal_is_one_to_one(left.target() as nat, right.target() as nat);
        } else if !left.points() && !right.points() {
            lemma_ends_agree("smi"@, signed(left.integer()), signed(right.integer()));
        } else if left.points() {
            assert(left.text()[0] == "cage+0x"@[0]);
            assert(right.text()[0] == signed(right.integer())[0]);
        } else {
            assert(right.text()[0] == "cage+0x"@[0]);
            assert(left.text()[0] == signed(left.integer())[0]);
        }
    }
}

/// How a slot is laid out: an integer stands in the upper thirty one bits over a clear tag, so its
/// bits are twice the integer, and an offset stands over a tag that is set, so its bits are one more
/// than the offset.
pub proof fn law_how_a_slot_is_laid_out(n: int, offset: u32)
    requires
        SMI_MIN <= n <= SMI_MAX,
        offset % 8 == 0,
    ensures
        SMI_MIN == -1073741824 && SMI_MAX == 1073741823,
        n >= 0 ==> Slot::of_integer(n).0 == 2 * n,
        n < 0 ==> Slot::of_integer(n).0 == 2 * n + 4294967296,
        Slot::of_target(offset as int).0 == offset + 1,
        forall|slot: Slot| #[trigger] slot.points() <==> slot.0 % 2 == 1,
        Slot::of_integer(n).text() == signed(n) + "smi"@,
        Slot::of_target(offset as int).text() == "cage+0x"@ + hexadecimal(offset as nat),
{
}

/// A range is rounded out to pages and no further: down to the last page boundary that is not above
/// it, and up to the first that is not below it.
pub proof fn law_pages_are_the_nearest(offset: int, page: int)
    requires
        0 <= offset,
        0 < page,
    ensures
        page_floor(offset, page) % page == 0,
        page_floor(offset, page) <= offset < page_floor(offset, page) + page,
        page_ceiling(offset, page) % page == 0,
        page_ceiling(offset, page) - page < offset <= page_ceiling(offset, page),
{
    let down = offset / page;
    let up = (offset + page - 1) / page;
    assert((down * page) % page == 0 && (up * page) % page == 0) by (nonlinear_arith)
        requires
            0 < page,
    ;
    assert(down * page <= offset < down * page + page) by (nonlinear_arith)
        requires
            down == offset / page,
            0 <= offset,
            0 < page,
    ;
    assert(up * page - page < offset <= up * page) by (nonlinear_arith)
        requires
            up == (offset + page - 1) / page,
            0 <= offset,
            0 < page,
    ;
}

/// What a cage that could not be had says.
pub proof fn law_what_a_refused_reservation_says(offset: u64, len: u64, size: u64)
    ensures
        CageError::Reserve(ReservationError::OutOfBounds { offset, len, size }).text()
            == "could not reserve the "@ + decimal(4294967296) + " byte cage: "@ + (decimal(
            len as nat,
        ) + " bytes at "@ + decimal(offset as nat) + " are not inside the "@ + decimal(size as nat)
            + " byte region"@),
        CageError::Reserve(ReservationError::AddressSpace { size }).text()
            == "could not reserve the "@ + decimal(4294967296) + " byte cage: "@ + (
        "addresses here cannot span "@ + decimal(size as nat) + " bytes"@),
        CageError::Reserve(ReservationError::Unsuitable { base: offset, page: len }).text()
            == "could not reserve the "@ + decimal(4294967296) + " byte cage: "@ + (
        "a cage cannot start at "@ + decimal(offset as nat) + " with pages of "@ + decimal(
            len as nat,
        ) + " bytes"@),
{
}

} // verus!
