//! A fixed set of named values: a count, then the names, then the values, allocated in one go and
//! never grown.
//!
//! It is deliberately not a small version of an ordinary object. There is no prototype, no
//! descriptor and no way to add a property that was not there when it was built.
//!
//! # Why the names and the values are two arrays
//!
//! A name is a four byte slot and a value is eight, so pairing them either pads four bytes per entry
//! or puts the values on a four byte boundary. And a lookup only ever reads names until it finds the
//! one it wants, so one cache line covers sixteen candidate names instead of four.

use vstd::prelude::*;

use crate::gc::block::{group_words, u32_at, u64_at, Blocks};
use crate::gc::bump::{BumpHeap, ObjectKind};
use crate::gc::cage::{law_a_slot_is_its_text, Cage, Slot};
use crate::gc::object::{
    allocate_slot, lemma_other_blocks_do_not_matter, moved_on, read_u32, read_u64, write_kind,
    write_u32, write_u64, HeapKind,
};
use crate::gc::string::StringRef;
use crate::text::lemma_ends_agree;

verus! {

/// Bytes of header: the kind tag and the count.
pub const RECORD_HEADER_SIZE: usize = 8;

/// Bytes per name, which is one slot.
pub const RECORD_NAME_SIZE: usize = 4;

/// Bytes per value, which is one boxed value rather than a slot.
pub const RECORD_VALUE_SIZE: usize = 8;

/// Where the values of a record with this many names start: after the names rounded up to eight
/// bytes.
pub open spec fn values_start(count: int) -> int {
    (8 + 4 * count + 7) / 8 * 8
}

/// How many entries the record at `offset` holds.
pub open spec fn record_count(blocks: Blocks, offset: int) -> u32 {
    u32_at(blocks[offset].bytes, 4)
}

/// Whether there is a record at an offset.
pub open spec fn is_record(blocks: Blocks, offset: int) -> bool {
    &&& blocks.contains_key(offset)
    &&& 0 <= offset <= u32::MAX
    &&& offset % 8 == 0
    &&& blocks[offset].kind == ObjectKind::Object
    &&& blocks[offset].bytes.len() >= 8
    &&& u32_at(blocks[offset].bytes, 0) == 16
    &&& values_start(record_count(blocks, offset) as int) + 8 * record_count(blocks, offset)
        <= blocks[offset].bytes.len()
}

/// The names of the record at `offset`, as slots.
pub open spec fn record_names(blocks: Blocks, offset: int) -> Seq<Slot> {
    Seq::new(
        record_count(blocks, offset) as nat,
        |i: int| Slot(u32_at(blocks[offset].bytes, 8 + 4 * i)),
    )
}

/// The values of the record at `offset`.
pub open spec fn record_values(blocks: Blocks, offset: int) -> Seq<u64> {
    Seq::new(
        record_count(blocks, offset) as nat,
        |i: int|
            u64_at(
                blocks[offset].bytes,
                values_start(record_count(blocks, offset) as int) + 8 * i,
            ),
    )
}

/// The first place a name is in a list of names, from `from` on.
pub open spec fn first_index(names: Seq<Slot>, name: Slot, from: int) -> Option<int>
    decreases names.len() - from,
{
    if from < 0 || from >= names.len() {
        None
    } else if names[from] == name {
        Some(from)
    } else {
        first_index(names, name, from + 1)
    }
}

/// The value the record at `offset` has under a name, if it has one.
pub open spec fn record_get(blocks: Blocks, offset: int, name: Slot) -> Option<u64> {
    match first_index(record_names(blocks, offset), name, 0) {
        Some(index) => Some(record_values(blocks, offset)[index]),
        None => None,
    }
}

/// A host object: interned names and the values behind them, decided when it is built.
#[derive(Clone, Copy, Debug, PartialEq, Eq, Hash, Structural)]
pub struct RecordRef(Slot);

impl RecordRef {
    /// The slot behind the reference.
    pub closed spec fn slotted(self) -> Slot {
        self.0
    }

    /// How the reference is written for a person: what it names and where that is.
    pub open spec fn text(self) -> Seq<char> {
        "record@"@ + self.slotted().text()
    }

    /// The reference for a person to read, which is enough to tell two of them apart.
    pub fn to_string(&self) -> (out: String)
        ensures
            out@ == self.text(),
    {
        let mut out = String::new();
        out.append("record@");
        out.append(self.0.to_string().as_str());
        assert(out@ =~= self.text());
        out
    }

    /// A slot names one reference: two with the same slot, pointing at one offset, or written alike are
    /// the same.
    pub proof fn law_a_slot_names_one_reference(self, other: RecordRef)
        ensures
            self.slotted() == other.slotted() <==> self == other,
            self.slotted().points() && other.slotted().points() && self.slotted().target()
                == other.slotted().target() ==> self == other,
            self.text() == other.text() <==> self == other,
            self.text() == "record@"@ + self.slotted().text(),
    {
        lemma_ends_agree("record@"@, self.slotted().text(), other.slotted().text());
        law_a_slot_is_its_text(self.slotted(), other.slotted());
    }

    /// The offset the reference names.
    pub open spec fn at(self) -> int {
        self.slotted().target()
    }

    /// Whether the reference names a record in a heap.
    pub open spec fn names_in(self, blocks: Blocks) -> bool {
        self.slotted().points() && is_record(blocks, self.at())
    }

    /// Build a record holding exactly `entries`, in the order given.
    ///
    /// Every name has to be interned by the caller, because the lookup compares addresses rather than
    /// text and a name that was not interned would be a property nothing can ever find. A name that
    /// appears twice keeps its first value and the second is unreachable.
    ///
    /// Returns `None` if the heap is full or the record would be larger than the cage.
    #[must_use]
    pub fn new(heap: &mut BumpHeap, entries: &[(StringRef, u64)]) -> (record: Option<RecordRef>)
        requires
            old(heap).wf(),
        ensures
            final(heap).wf(),
            record is Some <==> entries@.len() <= u32::MAX && old(heap).has_room(
                values_start(entries@.len() as int) + 8 * entries@.len(),
            ),
            record is None ==> *final(heap) == *old(heap),
            record matches Some(made) ==> {
                &&& made.at() == old(heap).next()
                &&& made.names_in(final(heap)@)
                &&& !old(heap)@.contains_key(made.at())
                &&& final(heap)@ == old(heap)@.insert(made.at(), final(heap)@[made.at()])
                &&& moved_on(
                    *old(heap),
                    *final(heap),
                    ObjectKind::Object,
                    values_start(entries@.len() as int) + 8 * entries@.len(),
                )
                &&& record_names(final(heap)@, made.at()) == Seq::new(
                    entries@.len(),
                    |i: int| entries@[i].0.slotted(),
                )
                &&& record_values(final(heap)@, made.at()) == Seq::new(
                    entries@.len(),
                    |i: int| entries@[i].1,
                )
            },
    {
        broadcast use group_words;

        if entries.len() > u32::MAX as usize {
            return None;
        }
        let ghost before = *heap;
        proof {
            heap.lemma_addresses_are_wide();
        }
        let count: u32 = entries.len() as u32;
        let start: usize = values_offset(count);
        let bytes: usize = start + RECORD_VALUE_SIZE * entries.len();
        let slot = match allocate_slot(heap, bytes, ObjectKind::Object) {
            Some(slot) => slot,
            None => {
                return None;
            },
        };
        let record = RecordRef(slot);
        let offset: u32 = slot.to_bits() - 1;
        write_kind(heap, offset, HeapKind::Record);
        write_u32(heap, offset, 4, count);
        let mut index: usize = 0;
        assert(heap@ =~= before@.insert(offset as int, heap@[offset as int]));
        while index < entries.len()
            invariant
                index <= entries@.len(),
                count == entries@.len(),
                start == values_start(count as int),
                bytes == start + 8 * count,
                usize::MAX >= crate::gc::cage::CAGE_SIZE,
                heap.laid_out(),
                heap@.contains_key(offset as int),
                heap@ == before@.insert(offset as int, heap@[offset as int]),
                heap@[offset as int].kind == ObjectKind::Object,
                heap@[offset as int].bytes.len() == bytes,
                moved_on(before, *heap, ObjectKind::Object, bytes as int),
                u32_at(heap@[offset as int].bytes, 0) == 16,
                u32_at(heap@[offset as int].bytes, 4) == count,
                forall|i: int|
                    0 <= i < index ==> #[trigger] u32_at(heap@[offset as int].bytes, 8 + 4 * i)
                        == entries@[i].0.slotted().0,
                forall|i: int|
                    0 <= i < index ==> #[trigger] u64_at(heap@[offset as int].bytes, start + 8 * i)
                        == entries@[i].1,
            decreases entries@.len() - index,
        {
            broadcast use group_words;

            let (name, value) = entries[index];
            let ghost held = heap@[offset as int].bytes;
            write_u32(heap, offset, 8 + 4 * index, name.slot().to_bits());
            let ghost named = heap@[offset as int].bytes;
            write_u64(heap, offset, start + RECORD_VALUE_SIZE * index, value);
            proof {
                assert(heap@ =~= before@.insert(offset as int, heap@[offset as int]));
                let after = heap@[offset as int].bytes;
                assert forall|i: int| 0 <= i < index + 1 implies #[trigger] u32_at(after, 8 + 4 * i)
                    == entries@[i].0.slotted().0 by {
                    assert(u32_at(after, 8 + 4 * i) == u32_at(named, 8 + 4 * i));
                    if i < index {
                        assert(u32_at(named, 8 + 4 * i) == u32_at(held, 8 + 4 * i));
                    }
                }
                assert forall|i: int| 0 <= i < index + 1 implies #[trigger] u64_at(
                    after,
                    start + 8 * i,
                ) == entries@[i].1 by {
                    if i < index {
                        assert(u64_at(after, start + 8 * i) == u64_at(named, start + 8 * i));
                        assert(u64_at(named, start + 8 * i) == u64_at(held, start + 8 * i));
                    }
                }
            }
            index = index + 1;
        }
        proof {
            lemma_other_blocks_do_not_matter(before@, record.at(), heap@[record.at()]);
            assert(record_names(heap@, record.at()) =~= Seq::new(
                entries@.len(),
                |i: int| entries@[i].0.slotted(),
            ));
            assert(record_values(heap@, record.at()) =~= Seq::new(
                entries@.len(),
                |i: int| entries@[i].1,
            ));
        }
        Some(record)
    }

    /// How many names this record holds.
    #[must_use]
    pub fn len(self, cage: &Cage) -> (count: u32)
        requires
            cage.laid_out(),
            self.names_in(cage@),
        ensures
            count == record_names(cage@, self.at()).len(),
            count == record_values(cage@, self.at()).len(),
    {
        read_u32(cage, self.offset(), 4)
    }

    /// Whether this record holds no names at all.
    #[must_use]
    pub fn is_empty(self, cage: &Cage) -> (empty: bool)
        requires
            cage.laid_out(),
            self.names_in(cage@),
        ensures
            empty == (record_names(cage@, self.at()).len() == 0),
    {
        self.len(cage) == 0
    }

    /// The value stored under `name`, or `None` if this record has no such name.
    ///
    /// The comparison is between slots and not between strings, which is only correct because both
    /// sides are interned.
    #[must_use]
    pub fn get(self, cage: &Cage, name: StringRef) -> (value: Option<u64>)
        requires
            cage.laid_out(),
            self.names_in(cage@),
        ensures
            value == record_get(cage@, self.at(), name.slotted()),
    {
        match self.index_of(cage, name) {
            Some(index) => self.value_at(cage, index),
            None => None,
        }
    }

    /// Replace the value stored under `name`, answering `false` if there is no such name.
    ///
    /// A record cannot grow, so this is an assignment to a property that already exists and nothing
    /// else.
    pub fn set(self, heap: &mut BumpHeap, name: StringRef, value: u64) -> (stored: bool)
        requires
            old(heap).wf(),
            self.names_in(old(heap)@),
        ensures
            final(heap).wf(),
            final(heap).stays(*old(heap)),
            self.names_in(final(heap)@),
            stored <==> record_get(old(heap)@, self.at(), name.slotted()) is Some,
            !stored ==> *final(heap) == *old(heap),
            final(heap)@ == old(heap)@.insert(self.at(), final(heap)@[self.at()]),
            record_names(final(heap)@, self.at()) == record_names(old(heap)@, self.at()),
            stored ==> record_values(final(heap)@, self.at()) == record_values(
                old(heap)@,
                self.at(),
            ).update(
                first_index(record_names(old(heap)@, self.at()), name.slotted(), 0)->0,
                value,
            ),
    {
        broadcast use group_words;

        let ghost before = heap@;
        let index: u32 = match self.index_of(heap.cage(), name) {
            Some(index) => index,
            None => {
                assert(heap@ =~= before.insert(self.at(), heap@[self.at()]));
                return false;
            },
        };
        proof {
            heap.cage_lemma(self.at());
        }
        let count: u32 = self.len(heap.cage());
        let start: usize = values_offset(count);
        write_u64(heap, self.offset(), start + RECORD_VALUE_SIZE * index as usize, value);
        proof {
            let block = before[self.at()].put_u64(start + 8 * index, value);
            assert(heap@ =~= before.insert(self.at(), heap@[self.at()]));
            lemma_other_blocks_do_not_matter(before, self.at(), block);
            assert(record_count(heap@, self.at()) == count);
            assert(record_names(heap@, self.at()) =~= record_names(before, self.at()));
            assert(record_values(heap@, self.at()) =~= record_values(before, self.at()).update(
                index as int,
                value,
            ));
        }
        true
    }

    /// The name at `index`, or `None` if the index is past the end.
    ///
    /// Together with [`RecordRef::value_at`] this is how printing a record reads it back, which wants
    /// the entries in order rather than by name.
    #[must_use]
    pub fn name_at(self, cage: &Cage, index: u32) -> (name: Option<StringRef>)
        requires
            cage.laid_out(),
            self.names_in(cage@),
        ensures
            name is Some <==> index < record_names(cage@, self.at()).len() && record_names(
                cage@,
                self.at(),
            )[index as int].points(),
            name matches Some(found) ==> found.slotted() == record_names(
                cage@,
                self.at(),
            )[index as int],
    {
        if index >= self.len(cage) {
            return None;
        }
        StringRef::from_slot(Slot::from_bits(self.name_bits(cage, index)))
    }

    /// The value at `index`, or `None` if the index is past the end.
    #[must_use]
    pub fn value_at(self, cage: &Cage, index: u32) -> (value: Option<u64>)
        requires
            cage.laid_out(),
            self.names_in(cage@),
        ensures
            value == if index < record_values(cage@, self.at()).len() {
                Some(record_values(cage@, self.at())[index as int])
            } else {
                None
            },
    {
        let count: u32 = self.len(cage);
        if index >= count {
            return None;
        }
        proof {
            cage.lemma_allocations_are_inside(self.at());
            cage.lemma_addresses_are_wide();
        }
        Some(read_u64(cage, self.offset(), values_offset(count) + RECORD_VALUE_SIZE * index as usize))
    }

    /// The slot this record lives at.
    #[must_use]
    pub fn slot(self) -> (slot: Slot)
        ensures
            slot == self.slotted(),
    {
        self.0
    }

    /// Read a record back out of a slot, or `None` if the slot is not a pointer.
    #[must_use]
    pub fn from_slot(slot: Slot) -> (record: Option<RecordRef>)
        ensures
            record is Some <==> slot.points(),
            record matches Some(found) ==> found.slotted() == slot,
    {
        if slot.is_pointer() {
            Some(RecordRef(slot))
        } else {
            None
        }
    }

    /// Where in the name array `name` sits, or `None` if it is not in it.
    fn index_of(self, cage: &Cage, name: StringRef) -> (index: Option<u32>)
        requires
            cage.laid_out(),
            self.names_in(cage@),
        ensures
            index is Some <==> first_index(record_names(cage@, self.at()), name.slotted(), 0)
                is Some,
            index matches Some(found) ==> first_index(
                record_names(cage@, self.at()),
                name.slotted(),
                0,
            ) == Some(found as int) && found < record_count(cage@, self.at()),
    {
        let wanted: u32 = name.slot().to_bits();
        let count: u32 = self.len(cage);
        let mut index: u32 = 0;
        while index < count
            invariant
                cage.laid_out(),
                self.names_in(cage@),
                wanted == name.slotted().0,
                count == record_count(cage@, self.at()),
                index <= count,
                first_index(record_names(cage@, self.at()), name.slotted(), 0) == first_index(
                    record_names(cage@, self.at()),
                    name.slotted(),
                    index as int,
                ),
            decreases count - index,
        {
            if self.name_bits(cage, index) == wanted {
                return Some(index);
            }
            index = index + 1;
        }
        None
    }

    fn name_bits(self, cage: &Cage, index: u32) -> (bits: u32)
        requires
            cage.laid_out(),
            self.names_in(cage@),
            index < record_count(cage@, self.at()),
        ensures
            Slot(bits) == record_names(cage@, self.at())[index as int],
    {
        proof {
            cage.lemma_allocations_are_inside(self.at());
            cage.lemma_addresses_are_wide();
        }
        read_u32(cage, self.offset(), 8 + 4 * index as usize)
    }

    fn offset(self) -> (offset: u32)
        requires
            self.slotted().points(),
        ensures
            offset == self.at(),
    {
        self.0.to_bits() - 1
    }
}

/// Where the values start, which is after the names rounded up to eight bytes.
///
/// The rounding is the only padding a record has, it is at most four bytes for the whole object
/// rather than four per entry, and an odd number of names is what costs it.
pub fn values_offset(count: u32) -> (start: usize)
    requires
        usize::MAX >= crate::gc::cage::CAGE_SIZE,
    ensures
        start == values_start(count as int),
{
    (RECORD_HEADER_SIZE + RECORD_NAME_SIZE * count as usize + 7) / 8 * 8
}

/// A record wastes at most four bytes, and only on an odd count.
pub proof fn law_only_an_odd_count_wastes_four_bytes(count: int)
    requires
        0 <= count,
    ensures
        values_start(count) == 8 + 4 * count + (if count % 2 == 1 {
            4int
        } else {
            0
        }),
{
}

/// A record has under a name what stands beside the first place the name is at.
pub proof fn law_a_record_answers_by_the_first_place(
    blocks: Blocks,
    offset: int,
    name: Slot,
    place: int,
)
    ensures
        ({
            let names = record_names(blocks, offset);
            &&& 0 <= place < names.len() && names[place] == name && (forall|k: int|
                0 <= k < place ==> names[k] != name) ==> record_get(blocks, offset, name) == Some(
                record_values(blocks, offset)[place],
            )
            &&& (forall|k: int| 0 <= k < names.len() ==> names[k] != name) ==> record_get(
                blocks,
                offset,
                name,
            ) is None
        }),
{
    lemma_the_first_place(record_names(blocks, offset), name, 0, place);
}

proof fn lemma_the_first_place(names: Seq<Slot>, name: Slot, from: int, place: int)
    requires
        0 <= from,
    ensures
        from <= place < names.len() && names[place] == name && (forall|k: int|
            from <= k < place ==> names[k] != name) ==> first_index(names, name, from) == Some(place),
        (forall|k: int| from <= k < names.len() ==> names[k] != name) ==> first_index(
            names,
            name,
            from,
        ) is None,
    decreases names.len() - from,
{
    if from < names.len() {
        lemma_the_first_place(names, name, from + 1, place);
    }
}

} // verus!
