//! The atom table: one canonical string per distinct piece of text.
//!
//! Every property name, every identifier and every constant pool string goes through here, and what
//! comes back is an [`Atom`], which is four bytes and compares as an integer.
//!
//! The table is open addressed with linear probing, because the table is small, the entries are four
//! bytes, and a probe that stays in the same cache line beats a probe sequence that is theoretically
//! shorter. The load factor is kept at three quarters, which is where linear probing still has short
//! runs.
//!
//! An empty entry is a slot of all zero bits. A zero slot is the integer zero and never a pointer, so
//! a freshly zeroed table is an empty table.
//!
//! The table's own memory is outside the cage, so the heap census does not see it.
//! [`AtomTable::memory_bytes`] exists so that whoever reports the numbers can add it back in.

use vstd::prelude::*;
use vstd::set_lib::{lemma_int_range, lemma_len_subset, set_int_range};

use crate::gc::block::{Block, Blocks};
use crate::gc::bump::{BumpHeap, ObjectKind};
use crate::gc::cage::{law_a_slot_is_its_text, Cage, Slot, CAGE_SIZE};
use crate::gc::object::moved_on;
use crate::gc::string::{
    hash_cached, hash_of, hash_str, is_ascii_units, is_string, marked_interned, payload_size,
    rewritten, units_in, StringRef, MAX_STRING_LENGTH,
};
use crate::gc::utf16::{encode, utf16};
use crate::text::{decimal, lemma_ends_agree, push_decimal};

verus! {

/// The smallest table worth allocating, in buckets.
pub const MIN_CAPACITY: usize = 16;

/// `Vec::capacity` is at least the length, and a vector never holds more bytes than `isize` can
/// count. How much more than the length it is depends on the allocator.
#[verifier::external_body]
fn bucket_capacity(buckets: &Vec<Slot>) -> (capacity: usize)
    ensures
        capacity >= buckets@.len(),
        capacity * 4 <= isize::MAX,
{
    buckets.capacity()
}

/// An interned string: the canonical copy of some text, for the lifetime of the heap.
///
/// Two atoms from the same table are equal exactly when their text is equal, and the comparison is
/// four bytes wide.
#[derive(Clone, Copy, Debug, PartialEq, Eq, Hash, Structural)]
pub struct Atom(Slot);

impl Atom {
    /// The slot behind the atom.
    pub closed spec fn slotted(self) -> Slot {
        self.0
    }

    /// How the atom is written for a person: what it names and where that is.
    pub open spec fn text(self) -> Seq<char> {
        "atom@"@ + self.slotted().text()
    }

    /// The atom for a person to read, which is enough to tell two of them apart.
    pub fn to_string(&self) -> (out: String)
        ensures
            out@ == self.text(),
    {
        let mut out = String::new();
        out.append("atom@");
        out.append(self.0.to_string().as_str());
        assert(out@ =~= self.text());
        out
    }

    /// A slot names one atom: two with the same slot, pointing at one offset, or written alike are
    /// the same.
    pub proof fn law_a_slot_names_one_atom(self, other: Atom)
        ensures
            self.slotted() == other.slotted() <==> self == other,
            self.slotted().points() && other.slotted().points() && self.slotted().target()
                == other.slotted().target() ==> self == other,
            self.text() == other.text() <==> self == other,
            self.text() == "atom@"@ + self.slotted().text(),
    {
        lemma_ends_agree("atom@"@, self.slotted().text(), other.slotted().text());
        law_a_slot_is_its_text(self.slotted(), other.slotted());
    }

    /// Whether the atom names a string in a heap.
    pub open spec fn names(self, blocks: Blocks) -> bool {
        self.slotted().points() && is_string(blocks, self.slotted().target())
    }

    /// The string behind this atom.
    ///
    /// An atom is only ever built from an interned string, so its slot is a pointer.
    #[must_use]
    pub fn as_string(self) -> (string: StringRef)
        requires
            self.slotted().points(),
        ensures
            string.slotted() == self.slotted(),
    {
        StringRef::from_slot(self.0).unwrap()
    }

    /// The compressed slot, for writing into an object or a constant pool.
    #[must_use]
    pub fn slot(self) -> (slot: Slot)
        ensures
            slot == self.slotted(),
    {
        self.0
    }

    /// The text, when it is ASCII.
    #[must_use]
    pub fn as_ascii(self, cage: &Cage) -> (text: Option<String>)
        requires
            cage.laid_out(),
            self.names(cage@),
        ensures
            text is Some <==> is_ascii_units(slot_units(cage@, self.slotted())),
            text matches Some(found) ==> utf16(found@) == slot_units(cage@, self.slotted()),
    {
        self.as_string().as_ascii(cage)
    }
}

/// The code units of the string a slot names.
pub open spec fn slot_units(blocks: Blocks, slot: Slot) -> Seq<u16> {
    units_in(blocks[slot.target()].bytes)
}

/// Whether a slot names a canonical string with its hash in its header.
pub open spec fn is_canonical(blocks: Blocks, slot: Slot) -> bool {
    &&& slot.points()
    &&& is_string(blocks, slot.target())
    &&& hash_cached(blocks[slot.target()].bytes)
    &&& marked_interned(blocks[slot.target()].bytes)
}

/// The bucket `steps` after `home`, going round at the end.
spec fn probe(home: int, steps: int, capacity: int) -> int {
    if home + steps < capacity {
        home + steps
    } else {
        home + steps - capacity
    }
}

/// How many steps it takes to get from `home` to `bucket`.
spec fn distance(home: int, bucket: int, capacity: int) -> int {
    if bucket >= home {
        bucket - home
    } else {
        bucket - home + capacity
    }
}

/// The bucket where the probe for a slot starts.
spec fn home_of(blocks: Blocks, slot: Slot, capacity: int) -> int {
    hash_of(slot_units(blocks, slot)) as int % capacity
}

/// How many of the buckets are occupied.
spec fn occupied_in(buckets: Seq<Slot>) -> nat
    decreases buckets.len(),
{
    if buckets.len() == 0 {
        0
    } else {
        occupied_in(buckets.drop_last()) + (if buckets.last().points() {
            1nat
        } else {
            0
        })
    }
}

/// Whether every bucket on the way from `home` to `bucket` is occupied.
spec fn path_is_full(buckets: Seq<Slot>, home: int, bucket: int) -> bool {
    forall|steps: int|
        0 <= steps < distance(home, bucket, buckets.len() as int) ==> (
        #[trigger] buckets[probe(home, steps, buckets.len() as int)]).points()
}

/// Whether every occupied bucket names a canonical string that a probe for it reaches, and no two of
/// them name the same text.
spec fn buckets_hold(buckets: Seq<Slot>, blocks: Blocks) -> bool {
    &&& forall|i: int|
        0 <= i < buckets.len() && (#[trigger] buckets[i]).points() ==> is_canonical(
            blocks,
            buckets[i],
        ) && path_is_full(buckets, home_of(blocks, buckets[i], buckets.len() as int), i)
    &&& forall|i: int, j: int|
        0 <= i < j < buckets.len() && (#[trigger] buckets[i]).points() && (
        #[trigger] buckets[j]).points() ==> slot_units(blocks, buckets[i]) != slot_units(
            blocks,
            buckets[j],
        )
}

/// A table of interned strings.
///
/// Not a map from Rust strings. The keys live in the cage as real JavaScript strings, because that is
/// what a property name has to be anyway.
pub struct AtomTable {
    /// One slot per bucket. A zero slot is an empty bucket.
    buckets: Vec<Slot>,
    /// How many buckets are occupied.
    occupied: usize,
}

impl Default for AtomTable {
    fn default() -> (table: AtomTable)
        ensures
            table.count() == 0,
            forall|blocks: Blocks| #[trigger] table.wf(blocks),
            forall|slot: Slot| !#[trigger] table.holds(slot),
    {
        AtomTable::new()
    }
}

impl AtomTable {
    /// Whether a slot is in the table.
    pub closed spec fn holds(&self, slot: Slot) -> bool {
        slot.points() && self.buckets@.contains(slot)
    }

    /// How many atoms are in the table.
    pub closed spec fn count(&self) -> nat {
        self.occupied as nat
    }

    /// How many buckets the table has.
    pub closed spec fn capacity(&self) -> nat {
        self.buckets@.len()
    }

    /// Whether the table holds a string with these code units.
    pub open spec fn knows(&self, blocks: Blocks, units: Seq<u16>) -> bool {
        exists|slot: Slot| #[trigger] self.holds(slot) && slot_units(blocks, slot) == units
    }

    /// Every atom in the table is a canonical string of the heap that a lookup finds, no text is in it
    /// twice, and at most three quarters of its buckets are occupied.
    pub closed spec fn wf(&self, blocks: Blocks) -> bool {
        &&& buckets_hold(self.buckets@, blocks)
        &&& self.occupied == occupied_in(self.buckets@)
        &&& 4 * self.occupied <= 3 * self.buckets@.len()
        &&& self.buckets@.len() <= 16 || 3 * self.buckets@.len() <= 8 * (self.occupied + 1)
    }

    /// An empty table that has allocated nothing.
    ///
    /// A process that never interns a string pays nothing for this.
    #[must_use]
    pub fn new() -> (table: AtomTable)
        ensures
            table.count() == 0,
            table.capacity() == 0,
            forall|blocks: Blocks| #[trigger] table.wf(blocks),
            forall|slot: Slot| !#[trigger] table.holds(slot),
    {
        AtomTable { buckets: Vec::new(), occupied: 0 }
    }

    /// How many distinct atoms are in the table.
    #[must_use]
    pub fn len(&self) -> (count: usize)
        ensures
            count == self.count(),
    {
        self.occupied
    }

    /// Whether nothing has been interned yet.
    #[must_use]
    pub fn is_empty(&self) -> (empty: bool)
        ensures
            empty == (self.count() == 0),
    {
        self.occupied == 0
    }

    /// How many buckets the table has.
    #[must_use]
    pub fn bucket_count(&self) -> (count: usize)
        ensures
            count == self.capacity(),
    {
        self.buckets.len()
    }

    /// Bytes the table itself occupies, outside the cage and outside the heap census.
    ///
    /// Nothing for a table without buckets, and at least four for each bucket of another. How many
    /// more depends on what the allocator gave.
    #[must_use]
    pub fn memory_bytes(&self) -> (bytes: usize)
        ensures
            self.capacity() == 0 ==> bytes == 0,
            bytes >= 4 * self.capacity(),
            bytes % 4 == 0,
    {
        if self.buckets.len() == 0 {
            return 0;
        }
        bucket_capacity(&self.buckets) * 4
    }

    /// How the table is written for a person: how full it is.
    pub open spec fn text(&self) -> Seq<char> {
        "AtomTable { atoms: "@ + decimal(self.count()) + ", buckets: "@ + decimal(self.capacity())
            + " }"@
    }

    /// The table for a person to read.
    pub fn to_string(&self) -> (out: String)
        ensures
            out@ == self.text(),
    {
        let mut out = String::new();
        out.append("AtomTable { atoms: ");
        push_decimal(&mut out, self.occupied as u64);
        out.append(", buckets: ");
        push_decimal(&mut out, self.buckets.len() as u64);
        out.append(" }");
        assert(out@ =~= self.text());
        out
    }

    /// Find the atom for some text, without allocating anything if it is missing.
    ///
    /// This is the lookup a property access does. It hashes the text directly rather than building a
    /// string to hash.
    #[must_use]
    pub fn lookup(&self, cage: &Cage, text: &str) -> (atom: Option<Atom>)
        requires
            cage.laid_out(),
            self.wf(cage@),
        ensures
            atom is Some <==> self.knows(cage@, utf16(text@)),
            atom matches Some(found) ==> self.holds(found.slotted()) && slot_units(
                cage@,
                found.slotted(),
            ) == utf16(text@) && is_canonical(cage@, found.slotted()),
    {
        let expected = encode(text);
        self.find(cage, hash_str(text), &expected)
    }

    /// Find the atom for some text, allocating the canonical string if it is not there yet.
    ///
    /// Returns `None` only when the string cannot be made, because the heap is full or the text is too
    /// long.
    pub fn intern(&mut self, heap: &mut BumpHeap, text: &str) -> (atom: Option<Atom>)
        requires
            old(heap).wf(),
            old(self).wf(old(heap)@),
        ensures
            final(heap).wf(),
            final(self).wf(final(heap)@),
            atom is None <==> !old(self).knows(old(heap)@, utf16(text@)) && !(utf16(text@).len()
                <= MAX_STRING_LENGTH && old(heap).has_room(12 + payload_size(utf16(text@)))),
            atom is None || old(self).knows(old(heap)@, utf16(text@)) ==> *final(heap) == *old(heap)
                && *final(self) == *old(self),
            atom matches Some(found) ==> {
                &&& final(self).holds(found.slotted())
                &&& is_canonical(final(heap)@, found.slotted())
                &&& slot_units(final(heap)@, found.slotted()) == utf16(text@)
                &&& !old(self).knows(old(heap)@, utf16(text@)) ==> grew_by(
                    *old(self),
                    *final(self),
                    found.slotted(),
                ) && found.slotted().target() == old(heap).next() && final(heap)@ == old(heap)@.insert(
                    old(heap).next(),
                    final(heap)@[old(heap).next()],
                ) && moved_on(
                    *old(heap),
                    *final(heap),
                    ObjectKind::String,
                    12 + payload_size(utf16(text@)),
                )
            },
    {
        if let Some(atom) = self.lookup(heap.cage(), text) {
            return Some(atom);
        }
        let ghost before = *heap;
        let ghost table = *self;
        let string = match StringRef::from_str(heap, text) {
            Some(string) => string,
            None => {
                return None;
            },
        };
        proof {
            lemma_table_outlives_an_allocation(table, before@, string.at(), heap@[string.at()]);
            assert(heap@ == before@.insert(string.at(), heap@[string.at()]));
            assert(!table.knows(heap@, utf16(text@))) by {
                if table.knows(heap@, utf16(text@)) {
                    let slot = choose|slot: Slot|
                        #[trigger] table.holds(slot) && slot_units(heap@, slot) == utf16(text@);
                    lemma_holds_is_canonical(table, before@, slot);
                    assert(slot_units(before@, slot) == utf16(text@));
                    assert(table.knows(before@, utf16(text@)));
                }
            }
        }
        let ghost made = heap@;
        let atom = self.insert(heap, string);
        proof {
            assert(heap@ =~= before@.insert(string.at(), heap@[string.at()]));
        }
        Some(atom)
    }

    /// Intern a string that is already in the heap.
    ///
    /// Returns the canonical copy, which may be a string interned earlier, in which case the one
    /// passed in is garbage.
    pub fn intern_string(&mut self, heap: &mut BumpHeap, string: StringRef) -> (atom: Atom)
        requires
            old(heap).wf(),
            old(self).wf(old(heap)@),
            string.names(old(heap)@),
        ensures
            final(heap).wf(),
            final(heap).stays(*old(heap)),
            final(self).wf(final(heap)@),
            final(self).holds(atom.slotted()),
            is_canonical(final(heap)@, atom.slotted()),
            slot_units(final(heap)@, atom.slotted()) == string.units(old(heap)@),
            old(self).knows(old(heap)@, string.units(old(heap)@)) ==> *final(self) == *old(self)
                && rewritten(
                old(heap)@,
                final(heap)@,
                string,
                true,
                string.interned(old(heap)@),
            ),
            !old(self).knows(old(heap)@, string.units(old(heap)@)) ==> atom.slotted()
                == string.slotted() && grew_by(*old(self), *final(self), atom.slotted())
                && rewritten(old(heap)@, final(heap)@, string, true, true),
    {
        let ghost before = heap@;
        let ghost table = *self;
        let hash: u32 = string.hash(heap);
        proof {
            lemma_table_outlives_a_rewrite(table, before, heap@, string, string.interned(before));
        }
        let units = string.code_units(heap.cage());
        if let Some(found) = self.find(heap.cage(), hash, &units) {
            proof {
                lemma_knowing_outlives_a_rewrite(
                    table,
                    before,
                    heap@,
                    string,
                    string.interned(before),
                    units@,
                );
            }
            return found;
        }
        proof {
            lemma_knowing_outlives_a_rewrite(
                table,
                before,
                heap@,
                string,
                string.interned(before),
                units@,
            );
        }
        let ghost hashed = heap@;
        let atom = self.insert(heap, string);
        proof {
            assert(heap@ =~= before.insert(string.at(), heap@[string.at()]));
        }
        atom
    }

    /// Every atom in the table, in bucket order, which is not a useful order to anybody but a test.
    #[must_use]
    pub fn atoms(&self) -> (atoms: Vec<Atom>)
        ensures
            forall|slot: Slot| #[trigger]
                self.holds(slot) <==> exists|i: int|
                    0 <= i < atoms@.len() && (#[trigger] atoms@[i]).slotted() == slot,
            forall|i: int| 0 <= i < atoms@.len() ==> (#[trigger] atoms@[i]).slotted().points(),
            forall|blocks: Blocks| #[trigger]
                self.wf(blocks) ==> atoms@.len() == self.count() && atoms@.no_duplicates(),
    {
        let mut atoms: Vec<Atom> = Vec::new();
        let mut at: usize = 0;
        let ghost mut places: Seq<int> = Seq::empty();
        assert(self.buckets@.take(0) =~= Seq::<Slot>::empty());
        while at < self.buckets.len()
            invariant
                at <= self.buckets@.len(),
                atoms@.len() == occupied_in(self.buckets@.take(at as int)),
                forall|i: int|
                    0 <= i < at && (#[trigger] self.buckets@[i]).points() ==> exists|k: int|
                        0 <= k < atoms@.len() && (#[trigger] atoms@[k]).slotted()
                            == self.buckets@[i],
                forall|k: int|
                    0 <= k < atoms@.len() ==> self.holds((#[trigger] atoms@[k]).slotted()),
                places.len() == atoms@.len(),
                forall|k: int|
                    0 <= k < places.len() ==> 0 <= #[trigger] places[k] < at
                        && self.buckets@[places[k]] == atoms@[k].slotted(),
                forall|i: int, j: int| 0 <= i < j < places.len() ==> places[i] < places[j],
            decreases self.buckets@.len() - at,
        {
            let slot: Slot = self.buckets[at];
            let ghost gathered = atoms@;
            proof {
                let next = self.buckets@.take(at + 1);
                assert(next.drop_last() =~= self.buckets@.take(at as int));
                assert(next.last() == slot);
            }
            if slot.is_pointer() {
                assert(self.buckets@[at as int] == slot);
                atoms.push(Atom(slot));
                proof {
                    places = places.push(at as int);
                }
                assert(atoms@[gathered.len() as int].slotted() == slot);
                assert forall|i: int|
                    0 <= i < at + 1 && (#[trigger] self.buckets@[i]).points() implies exists|k: int|
                    0 <= k < atoms@.len() && (#[trigger] atoms@[k]).slotted()
                        == self.buckets@[i] by {
                    if i < at {
                        let k = choose|k: int|
                            0 <= k < gathered.len() && (#[trigger] gathered[k]).slotted()
                                == self.buckets@[i];
                        assert(atoms@[k].slotted() == self.buckets@[i]);
                    }
                }
            }
            at = at + 1;
        }
        assert(self.buckets@.take(at as int) =~= self.buckets@);
        assert forall|blocks: Blocks| #[trigger] self.wf(blocks) implies atoms@.no_duplicates() by {
            assert forall|i: int, j: int|
                0 <= i < atoms@.len() && 0 <= j < atoms@.len() && i != j implies atoms@[i]
                != atoms@[j] by {
                assert(places[i] != places[j]);
                assert(self.holds(atoms@[i].slotted()));
                assert(self.buckets@[places[i]].points());
                assert(self.buckets@[places[j]] == atoms@[j].slotted());
            }
        }
        atoms
    }

    /// Probe for a string with these code units.
    fn find(&self, cage: &Cage, hash: u32, expected: &Vec<u16>) -> (atom: Option<Atom>)
        requires
            cage.laid_out(),
            self.wf(cage@),
            hash == hash_of(expected@),
        ensures
            atom is Some <==> self.knows(cage@, expected@),
            atom matches Some(found) ==> self.holds(found.slotted()) && slot_units(
                cage@,
                found.slotted(),
            ) == expected@ && is_canonical(cage@, found.slotted()),
    {
        if self.buckets.len() == 0 {
            return None;
        }
        proof {
            cage.lemma_addresses_are_wide();
        }
        let ghost buckets = self.buckets@;
        let capacity: usize = self.buckets.len();
        let home: usize = hash as usize % capacity;
        let mut index: usize = home;
        let mut steps: usize = 0;
        loop
            invariant
                cage.laid_out(),
                self.wf(cage@),
                hash == hash_of(expected@),
                buckets == self.buckets@,
                capacity == buckets.len(),
                0 < capacity,
                home == hash as int % capacity as int,
                home < capacity,
                steps <= capacity,
                steps < capacity ==> index == probe(home as int, steps as int, capacity as int),
                index < capacity,
                forall|k: int|
                    0 <= k < steps ==> {
                        let slot = #[trigger] buckets[probe(home as int, k, capacity as int)];
                        slot.points() && slot_units(cage@, slot) != expected@
                    },
            decreases capacity - steps,
        {
            proof {
                if steps == capacity {
                    assert forall|i: int| 0 <= i < buckets.len() implies (
                    #[trigger] buckets[i]).points() by {
                        let k = distance(home as int, i, capacity as int);
                        assert(probe(home as int, k, capacity as int) == i);
                    }
                    lemma_all_occupied(buckets);
                }
            }
            let slot: Slot = self.buckets[index];
            let existing = match StringRef::from_slot(slot) {
                Some(existing) => existing,
                None => {
                    // An integer slot is an empty bucket, and linear probing stops at the first one.
                    proof {
                        lemma_an_empty_bucket_ends_the_search(
                            *self,
                            cage@,
                            expected@,
                            home as int,
                            steps as int,
                        );
                    }
                    return None;
                },
            };
            // The hash first, because it rejects a collision in one comparison and the full
            // comparison walks the characters.
            if existing.peek_hash(cage) == hash && existing.equals_units(cage, expected) {
                assert(buckets.contains(slot));
                assert(self.holds(slot));
                return Some(Atom(slot));
            }
            index = if index + 1 == capacity {
                0
            } else {
                index + 1
            };
            steps = steps + 1;
        }
    }

    fn insert(&mut self, heap: &mut BumpHeap, string: StringRef) -> (atom: Atom)
        requires
            old(heap).wf(),
            old(self).wf(old(heap)@),
            string.names(old(heap)@),
            !old(self).knows(old(heap)@, string.units(old(heap)@)),
        ensures
            final(heap).wf(),
            final(heap).stays(*old(heap)),
            rewritten(old(heap)@, final(heap)@, string, true, true),
            final(self).wf(final(heap)@),
            atom.slotted() == string.slotted(),
            is_canonical(final(heap)@, atom.slotted()),
            grew_by(*old(self), *final(self), string.slotted()),
    {
        let ghost before = heap@;
        let ghost table = *self;
        self.make_room(heap.cage());
        let ghost roomy = *self;
        let hash: u32 = canonise(heap, string);
        proof {
            lemma_table_outlives_a_rewrite(roomy, before, heap@, string, true);
            lemma_same_atoms_know_the_same(table, roomy, before, string.units(before));
            lemma_knowing_outlives_a_rewrite(
                roomy,
                before,
                heap@,
                string,
                true,
                string.units(before),
            );
        }
        proof {
            heap.cage_lemma(string.at());
        }
        let slot: Slot = string.slot();
        self.fill(hash, slot, Ghost(heap@));
        assert forall|other: Slot| #[trigger] self.holds(other) <==> (table.holds(other) || other
            == slot) by {
            assert(table.holds(other) <==> roomy.holds(other));
        }
        Atom(slot)
    }

    /// Grow if one more atom would fill more than three quarters of the buckets.
    ///
    /// Growing before inserting keeps the table from ever being full, which is what stops a probe
    /// from running forever.
    fn make_room(&mut self, cage: &Cage)
        requires
            cage.laid_out(),
            old(self).wf(cage@),
        ensures
            final(self).wf(cage@),
            final(self).occupied == old(self).occupied,
            final(self).occupied < usize::MAX,
            4 * (final(self).occupied + 1) <= 3 * final(self).buckets@.len(),
            forall|slot: Slot| #[trigger] final(self).holds(slot) <==> old(self).holds(slot),
    {
        proof {
            lemma_few_atoms(*self, cage@);
            cage.lemma_addresses_are_wide();
        }
        if (self.occupied + 1) * 4 > self.buckets.len() * 3 {
            self.grow(cage);
        }
    }

    /// Put a canonical string that is not in the table into it.
    fn fill(&mut self, hash: u32, slot: Slot, Ghost(blocks): Ghost<Blocks>)
        requires
            old(self).wf(blocks),
            old(self).occupied < usize::MAX,
            4 * (old(self).occupied + 1) <= 3 * old(self).buckets@.len(),
            is_canonical(blocks, slot),
            hash == hash_of(slot_units(blocks, slot)),
            !old(self).knows(blocks, slot_units(blocks, slot)),
            usize::MAX >= CAGE_SIZE,
        ensures
            final(self).wf(blocks),
            grew_by(*old(self), *final(self), slot),
    {
        let ghost before = *self;
        let capacity: usize = self.buckets.len();
        let home: usize = hash as usize % capacity;
        let placed: usize = place(&mut self.buckets, home, slot);
        self.occupied = self.occupied + 1;
        proof {
            lemma_unknown_text_is_in_no_bucket(before, blocks, slot_units(blocks, slot));
            lemma_placing_keeps_the_buckets(
                before.buckets@,
                blocks,
                slot,
                home as int,
                placed as int,
            );
            lemma_occupied_after(before.buckets@, placed as int, slot);
            assert forall|other: Slot| #[trigger] self.holds(other) <==> (before.holds(other)
                || other == slot) by {
                if other.points() {
                    lemma_contains_after(before.buckets@, placed as int, slot, other);
                }
            }
        }
    }

    /// Move every atom into a table twice as large.
    fn grow(&mut self, cage: &Cage)
        requires
            cage.laid_out(),
            old(self).wf(cage@),
            old(self).buckets@.len() <= 0x10_0000_0000,
            4 * (old(self).occupied + 1) > 3 * old(self).buckets@.len(),
        ensures
            buckets_hold(final(self).buckets@, cage@),
            final(self).occupied == old(self).occupied,
            final(self).occupied == occupied_in(final(self).buckets@),
            4 * (final(self).occupied + 1) <= 3 * final(self).buckets@.len(),
            final(self).buckets@.len() <= 16 || 3 * final(self).buckets@.len() <= 8 * (
            final(self).occupied + 1),
            forall|slot: Slot| #[trigger] final(self).holds(slot) <==> old(self).holds(slot),
    {
        proof {
            cage.lemma_addresses_are_wide();
        }
        let ghost table = *self;
        let ghost former = self.buckets@;
        let capacity: usize = if self.buckets.len() == 0 {
            MIN_CAPACITY
        } else {
            self.buckets.len() * 2
        };
        let mut larger: Vec<Slot> = empty_buckets(capacity);
        proof {
            lemma_nothing_occupied(larger@);
            assert(former.take(0) =~= Seq::<Slot>::empty());
            lemma_occupied_is_bounded(former);
        }
        let mut at: usize = 0;
        while at < self.buckets.len()
            invariant
                cage.laid_out(),
                former == self.buckets@,
                *self == table,
                table.wf(cage@),
                at <= former.len(),
                capacity == larger@.len(),
                0 < capacity,
                capacity <= 0x20_0000_0000,
                usize::MAX >= CAGE_SIZE,
                former.len() < capacity,
                buckets_hold(larger@, cage@),
                occupied_in(larger@) == occupied_in(former.take(at as int)),
                forall|slot: Slot|
                    slot.points() ==> (#[trigger] larger@.contains(slot) <==> former.take(
                        at as int,
                    ).contains(slot)),
            decreases former.len() - at,
        {
            let slot: Slot = self.buckets[at];
            let ghost seen = former.take(at as int);
            let ghost next = former.take(at + 1);
            proof {
                assert(next.drop_last() =~= seen);
                assert(next =~= seen.push(slot));
                lemma_occupied_is_bounded(seen);
                assert(former[at as int] == slot);
            }
            if let Some(string) = StringRef::from_slot(slot) {
                // Every string in the table already has its hash cached, so rehashing reads a word
                // rather than walking the characters again.
                let hash: u32 = string.peek_hash(cage);
                let home: usize = hash as usize % capacity;
                let ghost partial = larger@;
                proof {
                    assert forall|i: int|
                        0 <= i < partial.len() && (#[trigger] partial[i]).points() implies slot_units(
                        cage@,
                        partial[i],
                    ) != slot_units(cage@, slot) by {
                        assert(partial.contains(partial[i]));
                        assert(seen.contains(partial[i]));
                        let k = choose|k: int| 0 <= k < seen.len() && seen[k] == partial[i];
                        assert(former[k] == partial[i]);
                    }
                }
                let placed: usize = place(&mut larger, home, slot);
                proof {
                    lemma_placing_keeps_the_buckets(
                        partial,
                        cage@,
                        slot,
                        home as int,
                        placed as int,
                    );
                    lemma_occupied_after(partial, placed as int, slot);
                    assert forall|other: Slot| other.points() implies (#[trigger] larger@.contains(
                        other,
                    ) <==> next.contains(other)) by {
                        lemma_contains_after(partial, placed as int, slot, other);
                        lemma_contains_after_push(seen, slot, other);
                    }
                }
            } else {
                proof {
                    assert forall|other: Slot| other.points() implies (#[trigger] larger@.contains(
                        other,
                    ) <==> next.contains(other)) by {
                        lemma_contains_after_push(seen, slot, other);
                    }
                }
            }
            at = at + 1;
        }
        assert(former.take(at as int) =~= former);
        self.buckets = larger;
    }
}

/// What adding one atom does to a table.
pub open spec fn grew_by(before: AtomTable, after: AtomTable, slot: Slot) -> bool {
    &&& after.count() == before.count() + 1
    &&& forall|other: Slot| #[trigger]
        after.holds(other) <==> (before.holds(other) || other == slot)
}

/// Put the hash of a string into its header and mark it as canonical.
fn canonise(heap: &mut BumpHeap, string: StringRef) -> (hash: u32)
    requires
        old(heap).wf(),
        string.names(old(heap)@),
    ensures
        final(heap).wf(),
        final(heap).stays(*old(heap)),
        hash == hash_of(string.units(old(heap)@)),
        rewritten(old(heap)@, final(heap)@, string, true, true),
        is_canonical(final(heap)@, string.slotted()),
{
    let ghost before = heap@;
    let hash: u32 = string.hash(heap);
    string.mark_interned(heap);
    proof {
        assert(heap@ =~= before.insert(string.at(), heap@[string.at()]));
    }
    hash
}

proof fn lemma_same_atoms_know_the_same(
    table: AtomTable,
    other: AtomTable,
    blocks: Blocks,
    units: Seq<u16>,
)
    requires
        forall|slot: Slot| #[trigger] other.holds(slot) <==> table.holds(slot),
    ensures
        table.knows(blocks, units) <==> other.knows(blocks, units),
{
    if table.knows(blocks, units) {
        let slot = choose|slot: Slot|
            #[trigger] table.holds(slot) && slot_units(blocks, slot) == units;
        assert(other.holds(slot));
    }
    if other.knows(blocks, units) {
        let slot = choose|slot: Slot|
            #[trigger] other.holds(slot) && slot_units(blocks, slot) == units;
        assert(table.holds(slot));
    }
}

proof fn lemma_unknown_text_is_in_no_bucket(table: AtomTable, blocks: Blocks, units: Seq<u16>)
    requires
        !table.knows(blocks, units),
    ensures
        forall|i: int|
            0 <= i < table.buckets@.len() && (#[trigger] table.buckets@[i]).points() ==> slot_units(
                blocks,
                table.buckets@[i],
            ) != units,
{
    assert forall|i: int|
        0 <= i < table.buckets@.len() && (#[trigger] table.buckets@[i]).points() implies slot_units(
        blocks,
        table.buckets@[i],
    ) != units by {
        assert(table.buckets@.contains(table.buckets@[i]));
        assert(table.holds(table.buckets@[i]));
    }
}

/// A table of empty buckets.
fn empty_buckets(capacity: usize) -> (buckets: Vec<Slot>)
    ensures
        buckets@.len() == capacity,
        forall|i: int| 0 <= i < capacity ==> !(#[trigger] buckets@[i]).points(),
{
    let mut buckets: Vec<Slot> = Vec::with_capacity(capacity);
    let mut at: usize = 0;
    while at < capacity
        invariant
            at <= capacity,
            buckets@.len() == at,
            forall|i: int| 0 <= i < at ==> !(#[trigger] buckets@[i]).points(),
        decreases capacity - at,
    {
        buckets.push(Slot::zero());
        at = at + 1;
    }
    buckets
}

/// Put a slot into the first empty bucket from `home` on.
fn place(buckets: &mut Vec<Slot>, home: usize, slot: Slot) -> (placed: usize)
    requires
        home < old(buckets)@.len(),
        occupied_in(old(buckets)@) < old(buckets)@.len(),
    ensures
        placed < old(buckets)@.len(),
        !old(buckets)@[placed as int].points(),
        path_is_full(old(buckets)@, home as int, placed as int),
        final(buckets)@ == old(buckets)@.update(placed as int, slot),
{
    let capacity: usize = buckets.len();
    let ghost before = buckets@;
    let mut index: usize = home;
    let mut steps: usize = 0;
    while buckets[index].is_pointer()
        invariant
            buckets@ == before,
            capacity == before.len(),
            home < capacity,
            index < capacity,
            steps <= capacity,
            occupied_in(before) < before.len(),
            steps < capacity ==> index == probe(home as int, steps as int, capacity as int),
            forall|k: int|
                0 <= k < steps ==> (#[trigger] before[probe(
                    home as int,
                    k,
                    capacity as int,
                )]).points(),
        decreases capacity - steps,
    {
        proof {
            if steps == capacity {
                assert forall|i: int| 0 <= i < before.len() implies (
                #[trigger] before[i]).points() by {
                    let k = distance(home as int, i, capacity as int);
                    assert(probe(home as int, k, capacity as int) == i);
                }
                lemma_all_occupied(before);
            }
        }
        index = if index + 1 == capacity {
            0
        } else {
            index + 1
        };
        steps = steps + 1;
    }
    proof {
        if steps == capacity {
            assert forall|i: int| 0 <= i < before.len() implies (#[trigger] before[i]).points() by {
                let k = distance(home as int, i, capacity as int);
                assert(probe(home as int, k, capacity as int) == i);
            }
            lemma_all_occupied(before);
        }
        assert(distance(home as int, index as int, capacity as int) == steps);
    }
    buckets[index] = slot;
    index
}

proof fn lemma_all_occupied(buckets: Seq<Slot>)
    requires
        forall|i: int| 0 <= i < buckets.len() ==> (#[trigger] buckets[i]).points(),
    ensures
        occupied_in(buckets) == buckets.len(),
    decreases buckets.len(),
{
    if buckets.len() > 0 {
        assert forall|i: int| 0 <= i < buckets.drop_last().len() implies (
        #[trigger] buckets.drop_last()[i]).points() by {
            assert(buckets.drop_last()[i] == buckets[i]);
        }
        lemma_all_occupied(buckets.drop_last());
        assert(buckets.last() == buckets[buckets.len() - 1]);
    }
}

proof fn lemma_nothing_occupied(buckets: Seq<Slot>)
    requires
        forall|i: int| 0 <= i < buckets.len() ==> !(#[trigger] buckets[i]).points(),
    ensures
        occupied_in(buckets) == 0,
    decreases buckets.len(),
{
    if buckets.len() > 0 {
        assert forall|i: int| 0 <= i < buckets.drop_last().len() implies !(
        #[trigger] buckets.drop_last()[i]).points() by {
            assert(buckets.drop_last()[i] == buckets[i]);
        }
        lemma_nothing_occupied(buckets.drop_last());
        assert(buckets.last() == buckets[buckets.len() - 1]);
    }
}

proof fn lemma_occupied_is_bounded(buckets: Seq<Slot>)
    ensures
        occupied_in(buckets) <= buckets.len(),
    decreases buckets.len(),
{
    if buckets.len() > 0 {
        lemma_occupied_is_bounded(buckets.drop_last());
    }
}

/// Filling an empty bucket occupies one more.
proof fn lemma_occupied_after(buckets: Seq<Slot>, placed: int, slot: Slot)
    requires
        0 <= placed < buckets.len(),
        !buckets[placed].points(),
        slot.points(),
    ensures
        occupied_in(buckets.update(placed, slot)) == occupied_in(buckets) + 1,
    decreases buckets.len(),
{
    let after = buckets.update(placed, slot);
    if placed == buckets.len() - 1 {
        assert(after.drop_last() =~= buckets.drop_last());
    } else {
        assert(after.drop_last() =~= buckets.drop_last().update(placed, slot));
        lemma_occupied_after(buckets.drop_last(), placed, slot);
    }
}

/// Filling an empty bucket adds that slot and loses none.
proof fn lemma_contains_after(buckets: Seq<Slot>, placed: int, slot: Slot, other: Slot)
    requires
        0 <= placed < buckets.len(),
        !buckets[placed].points(),
        other.points(),
    ensures
        buckets.update(placed, slot).contains(other) <==> (buckets.contains(other) || other == slot),
{
    let after = buckets.update(placed, slot);
    if buckets.contains(other) {
        let i = choose|i: int| 0 <= i < buckets.len() && buckets[i] == other;
        assert(after[i] == other);
    }
    if other == slot {
        assert(after[placed] == other);
    }
    if after.contains(other) {
        let i = choose|i: int| 0 <= i < after.len() && after[i] == other;
        if i != placed {
            assert(buckets[i] == other);
        }
    }
}

proof fn lemma_contains_after_push(seen: Seq<Slot>, slot: Slot, other: Slot)
    ensures
        seen.push(slot).contains(other) <==> (seen.contains(other) || other == slot),
{
    let after = seen.push(slot);
    if seen.contains(other) {
        let i = choose|i: int| 0 <= i < seen.len() && seen[i] == other;
        assert(after[i] == other);
    }
    if other == slot {
        assert(after[seen.len() as int] == other);
    }
    if after.contains(other) {
        let i = choose|i: int| 0 <= i < after.len() && after[i] == other;
        if i < seen.len() {
            assert(seen[i] == other);
        }
    }
}

/// Filling the first empty bucket of a probe keeps the buckets in order.
proof fn lemma_placing_keeps_the_buckets(
    buckets: Seq<Slot>,
    blocks: Blocks,
    slot: Slot,
    home: int,
    placed: int,
)
    requires
        buckets_hold(buckets, blocks),
        0 <= placed < buckets.len(),
        !buckets[placed].points(),
        is_canonical(blocks, slot),
        home == home_of(blocks, slot, buckets.len() as int),
        path_is_full(buckets, home, placed),
        forall|i: int|
            0 <= i < buckets.len() && (#[trigger] buckets[i]).points() ==> slot_units(
                blocks,
                buckets[i],
            ) != slot_units(blocks, slot),
    ensures
        buckets_hold(buckets.update(placed, slot), blocks),
{
    let after = buckets.update(placed, slot);
    let capacity = buckets.len() as int;
    assert forall|i: int| 0 <= i < after.len() && (#[trigger] after[i]).points() implies is_canonical(
        blocks,
        after[i],
    ) && path_is_full(after, home_of(blocks, after[i], capacity), i) by {
        let start = home_of(blocks, after[i], capacity);
        if i != placed {
            assert(after[i] == buckets[i]);
            assert(path_is_full(buckets, start, i));
        } else {
            assert(start == home);
        }
        assert forall|steps: int| 0 <= steps < distance(start, i, capacity) implies (
        #[trigger] after[probe(start, steps, capacity)]).points() by {
            assert(buckets[probe(start, steps, capacity)].points());
        }
    }
    assert forall|i: int, j: int|
        0 <= i < j < after.len() && (#[trigger] after[i]).points() && (
        #[trigger] after[j]).points() implies slot_units(blocks, after[i]) != slot_units(
        blocks,
        after[j],
    ) by {
        if i != placed {
            assert(after[i] == buckets[i]);
        }
        if j != placed {
            assert(after[j] == buckets[j]);
        }
    }
}

/// An empty bucket on the way from its home ends the search for a text: it is not in the table.
proof fn lemma_an_empty_bucket_ends_the_search(
    table: AtomTable,
    blocks: Blocks,
    units: Seq<u16>,
    home: int,
    steps: int,
)
    requires
        table.wf(blocks),
        table.buckets@.len() > 0,
        home == hash_of(units) as int % table.buckets@.len() as int,
        0 <= steps < table.buckets@.len(),
        !table.buckets@[probe(home, steps, table.buckets@.len() as int)].points(),
        forall|k: int|
            0 <= k < steps ==> {
                let slot = #[trigger] table.buckets@[probe(home, k, table.buckets@.len() as int)];
                slot.points() && slot_units(blocks, slot) != units
            },
    ensures
        !table.knows(blocks, units),
{
    let buckets = table.buckets@;
    let capacity = buckets.len() as int;
    if table.knows(blocks, units) {
        let slot = choose|slot: Slot|
            #[trigger] table.holds(slot) && slot_units(blocks, slot) == units;
        let i = choose|i: int| 0 <= i < buckets.len() && buckets[i] == slot;
        assert(buckets[i].points());
        let far = distance(home, i, capacity);
        assert(probe(home, far, capacity) == i);
        assert(path_is_full(buckets, home, i));
        if far > steps {
            assert(buckets[probe(home, steps, capacity)].points());
        }
    }
}

/// What is in a table is canonical.
pub proof fn lemma_holds_is_canonical(table: AtomTable, blocks: Blocks, slot: Slot)
    requires
        table.wf(blocks),
        table.holds(slot),
    ensures
        is_canonical(blocks, slot),
{
    let i = choose|i: int| 0 <= i < table.buckets@.len() && table.buckets@[i] == slot;
    assert(table.buckets@[i].points());
}

/// A table is as good in a later heap in which its strings are what they were.
pub proof fn lemma_table_outlives(table: AtomTable, before: Blocks, after: Blocks)
    requires
        table.wf(before),
        forall|slot: Slot| #[trigger]
            table.holds(slot) ==> is_canonical(after, slot) && slot_units(after, slot)
                == slot_units(before, slot),
    ensures
        table.wf(after),
{
    let buckets = table.buckets@;
    assert forall|i: int| 0 <= i < buckets.len() && (#[trigger] buckets[i]).points() implies
        is_canonical(after, buckets[i]) && slot_units(after, buckets[i]) == slot_units(
        before,
        buckets[i],
    ) by {
        assert(buckets.contains(buckets[i]));
        assert(table.holds(buckets[i]));
    }
}

/// A table outlives an allocation.
pub proof fn lemma_table_outlives_an_allocation(
    table: AtomTable,
    blocks: Blocks,
    offset: int,
    block: Block,
)
    requires
        table.wf(blocks),
        !blocks.contains_key(offset),
    ensures
        table.wf(blocks.insert(offset, block)),
{
    assert forall|slot: Slot| #[trigger] table.holds(slot) implies is_canonical(
        blocks.insert(offset, block),
        slot,
    ) && slot_units(blocks.insert(offset, block), slot) == slot_units(blocks, slot) by {
        lemma_holds_is_canonical(table, blocks, slot);
    }
    lemma_table_outlives(table, blocks, blocks.insert(offset, block));
}

/// A table outlives the hash of a string going into its header, and the string being marked.
proof fn lemma_table_outlives_a_rewrite(
    table: AtomTable,
    before: Blocks,
    after: Blocks,
    string: StringRef,
    interned: bool,
)
    requires
        table.wf(before),
        string.names(before),
        rewritten(before, after, string, true, interned),
        string.interned(before) ==> interned,
    ensures
        table.wf(after),
{
    assert forall|slot: Slot| #[trigger] table.holds(slot) implies is_canonical(after, slot)
        && slot_units(after, slot) == slot_units(before, slot) by {
        lemma_holds_is_canonical(table, before, slot);
        if slot.target() != string.at() {
            assert(after[slot.target()] == before[slot.target()]);
        }
    }
    lemma_table_outlives(table, before, after);
}

proof fn lemma_knowing_outlives_a_rewrite(
    table: AtomTable,
    before: Blocks,
    after: Blocks,
    string: StringRef,
    interned: bool,
    units: Seq<u16>,
)
    requires
        table.wf(before),
        string.names(before),
        rewritten(before, after, string, true, interned),
        string.interned(before) ==> interned,
    ensures
        table.knows(before, units) <==> table.knows(after, units),
{
    assert forall|slot: Slot| #[trigger] table.holds(slot) implies slot_units(after, slot)
        == slot_units(before, slot) by {
        lemma_holds_is_canonical(table, before, slot);
        if slot.target() != string.at() {
            assert(after[slot.target()] == before[slot.target()]);
        }
    }
    if table.knows(before, units) {
        let slot = choose|slot: Slot|
            #[trigger] table.holds(slot) && slot_units(before, slot) == units;
        assert(slot_units(after, slot) == units);
    }
    if table.knows(after, units) {
        let slot = choose|slot: Slot|
            #[trigger] table.holds(slot) && slot_units(after, slot) == units;
        assert(slot_units(before, slot) == units);
    }
}

/// The slots in a run of buckets, as numbers.
spec fn slot_numbers(buckets: Seq<Slot>) -> Set<int>
    decreases buckets.len(),
{
    if buckets.len() == 0 {
        Set::empty()
    } else if buckets.last().points() {
        slot_numbers(buckets.drop_last()).insert(buckets.last().0 as int)
    } else {
        slot_numbers(buckets.drop_last())
    }
}

proof fn lemma_slot_numbers(buckets: Seq<Slot>)
    requires
        forall|i: int, j: int|
            0 <= i < j < buckets.len() && (#[trigger] buckets[i]).points() && (
            #[trigger] buckets[j]).points() ==> buckets[i] != buckets[j],
    ensures
        slot_numbers(buckets).finite(),
        slot_numbers(buckets).len() == occupied_in(buckets),
        forall|n: int| #[trigger]
            slot_numbers(buckets).contains(n) ==> exists|i: int|
                0 <= i < buckets.len() && (#[trigger] buckets[i]).points() && buckets[i].0 == n,
    decreases buckets.len(),
{
    if buckets.len() > 0 {
        let front = buckets.drop_last();
        assert forall|i: int, j: int|
            0 <= i < j < front.len() && (#[trigger] front[i]).points() && (
            #[trigger] front[j]).points() implies front[i] != front[j] by {
            assert(front[i] == buckets[i]);
            assert(front[j] == buckets[j]);
        }
        lemma_slot_numbers(front);
        let last = buckets.last();
        assert(last == buckets[buckets.len() - 1]);
        if last.points() && slot_numbers(front).contains(last.0 as int) {
            let i = choose|i: int|
                0 <= i < front.len() && (#[trigger] front[i]).points() && front[i].0 == last.0;
            assert(buckets[i] == front[i]);
            assert(buckets[i] != buckets[buckets.len() - 1]);
        }
        assert forall|n: int| #[trigger] slot_numbers(buckets).contains(n) implies exists|i: int|
            0 <= i < buckets.len() && (#[trigger] buckets[i]).points() && buckets[i].0 == n by {
            if slot_numbers(front).contains(n) {
                let i = choose|i: int|
                    0 <= i < front.len() && (#[trigger] front[i]).points() && front[i].0 == n;
                assert(buckets[i] == front[i]);
            } else {
                assert(buckets[buckets.len() - 1].0 == n);
            }
        }
    }
}

/// There are no more atoms than slots, so a table stays small enough to grow.
proof fn lemma_few_atoms(table: AtomTable, blocks: Blocks)
    requires
        table.wf(blocks),
    ensures
        table.occupied <= 0x1_0000_0000,
        table.buckets@.len() <= 0x4_0000_0000,
{
    let buckets = table.buckets@;
    assert forall|i: int, j: int|
        0 <= i < j < buckets.len() && (#[trigger] buckets[i]).points() && (
        #[trigger] buckets[j]).points() implies buckets[i] != buckets[j] by {
        assert(slot_units(blocks, buckets[i]) != slot_units(blocks, buckets[j]));
    }
    lemma_slot_numbers(buckets);
    let all = set_int_range(0, 0x1_0000_0000);
    lemma_int_range(0, 0x1_0000_0000);
    assert(slot_numbers(buckets).subset_of(all));
    lemma_len_subset(slot_numbers(buckets), all);
}

/// Two atoms of one table are the same exactly when their text is.
pub proof fn law_atoms_are_equal_exactly_when_their_text_is(
    table: AtomTable,
    blocks: Blocks,
    left: Slot,
    right: Slot,
)
    requires
        table.wf(blocks),
        table.holds(left),
        table.holds(right),
    ensures
        left == right <==> slot_units(blocks, left) == slot_units(blocks, right),
{
    let buckets = table.buckets@;
    let i = choose|i: int| 0 <= i < buckets.len() && buckets[i] == left;
    let j = choose|j: int| 0 <= j < buckets.len() && buckets[j] == right;
    assert(buckets[i].points());
    assert(buckets[j].points());
}

/// At most three quarters of the buckets are occupied.
pub proof fn law_the_table_stays_under_its_load_factor(table: AtomTable, blocks: Blocks)
    requires
        table.wf(blocks),
    ensures
        4 * table.count() <= 3 * table.capacity(),
{
}

} // verus!
