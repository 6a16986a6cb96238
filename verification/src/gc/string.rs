//! Flat strings in the cage, in the two representations that matter.
//!
//! One byte per character Latin-1, and two bytes per code unit UTF-16 for everything else. There is
//! no conversion to Rust text that always works, because JavaScript's strings are sequences of code
//! units and not all of them are text.
//!
//! The representation is canonical: a string is UTF-16 only if it actually contains a code unit above
//! 255. Narrowing happens once, at allocation. Equal strings always agree on representation, so
//! equality can reject on the header before it looks at a byte.

use std::cmp::Ordering;

use vstd::prelude::*;

use crate::gc::block::{
    group_words, lemma_u16_changes_two_bytes, lemma_u16_is_its_bytes, lemma_u32_changes_four_bytes,
    lemma_u32_is_its_bytes, u16_at, u32_at, zeroes, Block, Blocks,
};
use crate::gc::bump::{BumpHeap, ObjectKind};
use crate::gc::cage::{law_a_slot_is_its_text, Cage, Slot};
use crate::gc::object::{
    allocate_slot, moved_on, objects_hold_together, read_u16, read_u32, read_u8,
    write_u16, write_u32,
};
use crate::gc::utf16::{
    decode_lossy, encode, find_lone, first_lone, law_encoding_is_one_to_one,
    lemma_byte_text_is_its_own_units, text_from, utf16,
};
use crate::text::{decimal, four_digits, lemma_ends_agree, push_decimal, push_four_digits};

verus! {

/// Bytes of header in front of the characters.
///
/// Three words: the kind tag, which is zero, the length in code units, and the packed hash and flags.
pub const STRING_HEADER_SIZE: usize = 12;

/// The longest string this engine will build, in code units.
///
/// The limit exists because the cage is four gigabytes, so a string that does not fit is a refusal
/// rather than a wrapped offset.
pub const MAX_STRING_LENGTH: u32 = 1073741823;

/// The multiplier the string hash mixes with. It is odd and has a well spread bit pattern, which is
/// all a non cryptographic mixer needs.
const HASH_MULTIPLIER: u64 = 0x9E37_79B1_85EB_CA87;

/// A product with the bits above the sixty fourth dropped.
pub open spec fn wrapped_product(left: u64, right: u64) -> u64 {
    ((left * right) % 0x1_0000_0000_0000_0000) as u64
}

/// One step of the string hash.
pub open spec fn mixed(state: u64, unit: u16) -> u64 {
    let product = wrapped_product(state ^ (unit as u64), 0x9E37_79B1_85EB_CA87);
    (product << 29) | (product >> 35)
}

/// The string hash before it is finished.
pub open spec fn mixed_all(units: Seq<u16>) -> u64
    decreases units.len(),
{
    if units.len() == 0 {
        0x9E37_79B1_85EB_CA87
    } else {
        mixed(mixed_all(units.drop_last()), units.last())
    }
}

/// The string hash, over code units so that it does not depend on the representation: twenty eight
/// bits.
#[verifier::opaque]
pub open spec fn hash_of(units: Seq<u16>) -> u32 {
    let measured = mixed_all(units) ^ wrapped_product(units.len() as u64, 0x9E37_79B1_85EB_CA87);
    let folded = measured ^ (measured >> 33);
    let spread = wrapped_product(folded, 0x9E37_79B1_85EB_CA87);
    let done = spread ^ (spread >> 29);
    (done % 268435456) as u32
}

/// Whether a header says one byte per character.
pub open spec fn narrow(bytes: Seq<u8>) -> bool {
    u32_at(bytes, 8) % 4 == 0
}

/// Whether a header says the string is the canonical copy in an atom table.
pub open spec fn marked_interned(bytes: Seq<u8>) -> bool {
    u32_at(bytes, 8) / 4 % 2 == 1
}

/// Whether a header holds the hash.
pub open spec fn hash_cached(bytes: Seq<u8>) -> bool {
    u32_at(bytes, 8) / 8 % 2 == 1
}

/// The length in a header.
pub open spec fn unit_count(bytes: Seq<u8>) -> nat {
    u32_at(bytes, 4) as nat
}

/// The code unit at `index`.
pub open spec fn unit_at(bytes: Seq<u8>, index: int) -> u16 {
    if narrow(bytes) {
        bytes[12 + index] as u16
    } else {
        u16_at(bytes, 12 + 2 * index)
    }
}

/// The code units of the string laid out in some bytes.
pub open spec fn units_in(bytes: Seq<u8>) -> Seq<u16> {
    Seq::new(unit_count(bytes), |i: int| unit_at(bytes, i))
}

/// How many bytes the characters of a string take.
pub open spec fn payload_size(units: Seq<u16>) -> int {
    if fits_in_bytes(units) {
        units.len() as int
    } else {
        2 * units.len() as int
    }
}

/// Whether every code unit fits in a byte.
pub open spec fn fits_in_bytes(units: Seq<u16>) -> bool {
    forall|i: int| 0 <= i < units.len() ==> #[trigger] units[i] <= 0xFF
}

/// Whether a string is laid out in these bytes: the kind tag is the string's, the characters are
/// inside, the representation is the narrowest one, and the hash is right if it is there.
pub open spec fn string_laid_out(bytes: Seq<u8>) -> bool {
    &&& bytes.len() >= 12
    &&& u32_at(bytes, 0) == 0
    &&& u32_at(bytes, 8) % 4 <= 1
    &&& unit_count(bytes) <= MAX_STRING_LENGTH
    &&& narrow(bytes) ==> 12 + unit_count(bytes) <= bytes.len()
    &&& !narrow(bytes) ==> 12 + 2 * unit_count(bytes) <= bytes.len()
    &&& narrow(bytes) == fits_in_bytes(units_in(bytes))
    &&& hash_cached(bytes) ==> u32_at(bytes, 8) / 16 == hash_of(units_in(bytes))
    &&& !hash_cached(bytes) ==> u32_at(bytes, 8) < 8
}

/// Whether there is a string at an offset.
pub open spec fn is_string(blocks: Blocks, offset: int) -> bool {
    &&& blocks.contains_key(offset)
    &&& 0 <= offset <= u32::MAX
    &&& offset % 8 == 0
    &&& blocks[offset].kind == ObjectKind::String
    &&& string_laid_out(blocks[offset].bytes)
}

/// Whether every block allocated for a string and large enough to be one is one.
pub open spec fn strings_hold(blocks: Blocks) -> bool {
    forall|offset: int| #[trigger]
        blocks.contains_key(offset) && blocks[offset].kind == ObjectKind::String
            && blocks[offset].bytes.len() >= 12 ==> string_laid_out(blocks[offset].bytes)
}

pub proof fn lemma_a_fresh_block_is_an_empty_string(
    blocks: Blocks,
    offset: int,
    kind: ObjectKind,
    size: nat,
)
    requires
        strings_hold(blocks),
    ensures
        strings_hold(blocks.insert(offset, Block::fresh(kind, size))),
{
    broadcast use group_words;

    if size >= 12 {
        let bytes = zeroes(size);
        assert(units_in(bytes).len() == 0);
        assert(string_laid_out(bytes));
    }
}

/// What went wrong turning a JavaScript string into Rust text.
#[derive(Clone, Copy, Debug, PartialEq, Eq, Structural)]
pub struct LoneSurrogate {
    /// Index of the offending code unit.
    pub index: u32,
    /// The code unit itself, somewhere in D800 to DFFF.
    pub unit: u16,
}

impl LoneSurrogate {
    /// What the error says.
    pub open spec fn text(self) -> Seq<char> {
        "lone surrogate 0x"@ + four_digits(self.unit) + " at code unit "@ + decimal(
            self.index as nat,
        )
    }

    /// What the error says, for a person to read.
    pub fn to_string(&self) -> (out: String)
        ensures
            out@ == self.text(),
    {
        let mut out = String::new();
        out.append("lone surrogate 0x");
        push_four_digits(&mut out, self.unit);
        out.append(" at code unit ");
        push_decimal(&mut out, self.index as u64);
        assert(out@ =~= self.text());
        out
    }
}

/// Whether one code unit sequence comes before another from `from` on, the shorter one first when one
/// is the start of the other.
pub open spec fn before_from(left: Seq<u16>, right: Seq<u16>, from: int) -> bool
    decreases left.len() - from,
{
    if from < 0 || from >= left.len() {
        from < right.len()
    } else if from >= right.len() {
        false
    } else if left[from] != right[from] {
        left[from] < right[from]
    } else {
        before_from(left, right, from + 1)
    }
}

/// Code unit order: whether one sequence comes before another.
pub open spec fn comes_before(left: Seq<u16>, right: Seq<u16>) -> bool {
    before_from(left, right, 0)
}

/// A reference to a flat string in the cage.
///
/// This is a compressed slot and not a pointer, so it is four bytes and it survives being written
/// into an object. Reading through it needs the cage: the offset means nothing without the base.
#[derive(Clone, Copy, Debug, PartialEq, Eq, Hash, Structural)]
pub struct StringRef(Slot);

/// What making a string of these code units does to a heap: one more string block where the cursor
/// was, with nothing cached in it yet, and nothing else.
pub open spec fn made_string(
    before: BumpHeap,
    after: BumpHeap,
    string: StringRef,
    units: Seq<u16>,
) -> bool {
    &&& string.at() == before.next()
    &&& string.names(after@)
    &&& string.units(after@) == units
    &&& !hash_cached(after@[string.at()].bytes)
    &&& !marked_interned(after@[string.at()].bytes)
    &&& after@[string.at()].bytes.len() == 12 + payload_size(units)
    &&& !before@.contains_key(string.at())
    &&& after@ == before@.insert(string.at(), after@[string.at()])
    &&& moved_on(before, after, ObjectKind::String, 12 + payload_size(units))
}

impl StringRef {
    /// The slot behind the reference.
    pub closed spec fn slotted(self) -> Slot {
        self.0
    }

    /// How the reference is written for a person: what it names and where that is.
    pub open spec fn text(self) -> Seq<char> {
        "str@"@ + self.slotted().text()
    }

    /// The reference for a person to read, which is enough to tell two of them apart.
    pub fn to_string(&self) -> (out: String)
        ensures
            out@ == self.text(),
    {
        let mut out = String::new();
        out.append("str@");
        out.append(self.0.to_string().as_str());
        assert(out@ =~= self.text());
        out
    }

    /// A slot names one reference: two with the same slot, pointing at one offset, or written alike are
    /// the same.
    pub proof fn law_a_slot_names_one_reference(self, other: StringRef)
        ensures
            self.slotted() == other.slotted() <==> self == other,
            self.slotted().points() && other.slotted().points() && self.slotted().target()
                == other.slotted().target() ==> self == other,
            self.text() == other.text() <==> self == other,
            self.text() == "str@"@ + self.slotted().text(),
    {
        lemma_ends_agree("str@"@, self.slotted().text(), other.slotted().text());
        law_a_slot_is_its_text(self.slotted(), other.slotted());
    }

    /// The offset the reference names.
    pub open spec fn at(self) -> int {
        self.slotted().target()
    }

    /// Whether the reference names a string in a heap.
    pub open spec fn names(self, blocks: Blocks) -> bool {
        self.slotted().points() && is_string(blocks, self.at())
    }

    /// The code units of the string.
    pub open spec fn units(self, blocks: Blocks) -> Seq<u16> {
        units_in(blocks[self.at()].bytes)
    }

    /// Whether the string is the canonical copy in an atom table.
    pub open spec fn interned(self, blocks: Blocks) -> bool {
        marked_interned(blocks[self.at()].bytes)
    }

    /// Whether the hash of the string is in its header.
    pub open spec fn hashed(self, blocks: Blocks) -> bool {
        hash_cached(blocks[self.at()].bytes)
    }

    /// Build a string from Rust text, narrowing to Latin-1 when every character fits in a byte.
    ///
    /// Returns `None` if the heap is full or the text is longer than [`MAX_STRING_LENGTH`].
    pub fn from_str(heap: &mut BumpHeap, text: &str) -> (string: Option<StringRef>)
        requires
            old(heap).wf(),
        ensures
            final(heap).wf(),
            string is Some <==> utf16(text@).len() <= MAX_STRING_LENGTH && old(heap).has_room(
                12 + payload_size(utf16(text@)),
            ),
            string is None ==> *final(heap) == *old(heap),
            string matches Some(made) ==> made_string(
                *old(heap),
                *final(heap),
                made,
                utf16(text@),
            ),
    {
        let units = encode(text);
        StringRef::from_utf16(heap, units.as_slice())
    }

    /// Build a Latin-1 string, one byte per character.
    ///
    /// Returns `None` if the heap is full or the text is longer than [`MAX_STRING_LENGTH`].
    pub fn from_latin1(heap: &mut BumpHeap, bytes: &[u8]) -> (string: Option<StringRef>)
        requires
            old(heap).wf(),
        ensures
            final(heap).wf(),
            string is Some <==> bytes@.len() <= MAX_STRING_LENGTH && old(heap).has_room(
                12 + bytes@.len() as int,
            ),
            string is None ==> *final(heap) == *old(heap),
            string matches Some(made) ==> made_string(
                *old(heap),
                *final(heap),
                made,
                widened(bytes@),
            ),
    {
        if bytes.len() > MAX_STRING_LENGTH as usize {
            return None;
        }
        let ghost before = *heap;
        let length: u32 = bytes.len() as u32;
        let string = match StringRef::allocate(heap, length, 0, bytes.len()) {
            Some(string) => string,
            None => {
                return None;
            },
        };
        let ghost units = widened(bytes@);
        let mut at: usize = 0;
        while at < bytes.len()
            invariant
                at <= bytes@.len(),
                bytes@.len() <= MAX_STRING_LENGTH,
                being_filled(before, *heap, string, length, 0, bytes@.len() as int),
                forall|i: int|
                    0 <= i < at ==> #[trigger] heap@[string.at()].bytes[12 + i] == bytes@[i],
            decreases bytes@.len() - at,
        {
            let ghost held = *heap;
            string.write_narrow(heap, at, bytes[at]);
            proof {
                lemma_still_being_filled(
                    before,
                    held,
                    *heap,
                    string,
                    length,
                    0,
                    bytes@.len() as int,
                    12 + at,
                    1,
                );
            }
            at = at + 1;
        }
        proof {
            lemma_filled_narrow(before, *heap, string, units);
        }
        Some(string)
    }

    /// Build a string from UTF-16 code units, narrowing to Latin-1 when they all fit in a byte.
    ///
    /// Lone surrogates are allowed here, because JavaScript allows them. They only become a problem
    /// at the Rust boundary, which is where [`StringRef::to_utf8`] refuses them.
    ///
    /// Returns `None` if the heap is full or the text is longer than [`MAX_STRING_LENGTH`].
    pub fn from_utf16(heap: &mut BumpHeap, units: &[u16]) -> (string: Option<StringRef>)
        requires
            old(heap).wf(),
        ensures
            final(heap).wf(),
            string is Some <==> units@.len() <= MAX_STRING_LENGTH && old(heap).has_room(
                12 + payload_size(units@),
            ),
            string is None ==> *final(heap) == *old(heap),
            string matches Some(made) ==> made_string(*old(heap), *final(heap), made, units@),
    {
        if units.len() > MAX_STRING_LENGTH as usize {
            return None;
        }
        let ghost before = *heap;
        let length: u32 = units.len() as u32;
        // Narrowing is checked on every construction, which is what makes the representation
        // canonical.
        if all_narrow(units) {
            let string = match StringRef::allocate(heap, length, 0, units.len()) {
                Some(string) => string,
                None => {
                    return None;
                },
            };
            let mut at: usize = 0;
            while at < units.len()
                invariant
                    at <= units@.len(),
                    units@.len() <= MAX_STRING_LENGTH,
                    fits_in_bytes(units@),
                    being_filled(before, *heap, string, length, 0, units@.len() as int),
                    forall|i: int|
                        0 <= i < at ==> #[trigger] heap@[string.at()].bytes[12 + i] == units@[i],
                decreases units@.len() - at,
            {
                let unit: u16 = units[at];
                let ghost held = *heap;
                string.write_narrow(heap, at, unit as u8);
                proof {
                    lemma_still_being_filled(
                        before,
                        held,
                        *heap,
                        string,
                        length,
                        0,
                        units@.len() as int,
                        12 + at,
                        1,
                    );
                }
                at = at + 1;
            }
            proof {
                lemma_filled_narrow(before, *heap, string, units@);
            }
            return Some(string);
        }
        let string = match StringRef::allocate(heap, length, 1, units.len() * 2) {
            Some(string) => string,
            None => {
                return None;
            },
        };
        let mut at: usize = 0;
        while at < units.len()
            invariant
                at <= units@.len(),
                units@.len() <= MAX_STRING_LENGTH,
                being_filled(before, *heap, string, length, 1, 2 * units@.len() as int),
                forall|i: int|
                    0 <= i < at ==> #[trigger] u16_at(heap@[string.at()].bytes, 12 + 2 * i)
                        == units@[i],
            decreases units@.len() - at,
        {
            let ghost held = *heap;
            string.write_wide(heap, at, units[at]);
            proof {
                lemma_still_being_filled(
                    before,
                    held,
                    *heap,
                    string,
                    length,
                    1,
                    2 * units@.len() as int,
                    12 + 2 * at,
                    2,
                );
                lemma_earlier_units_stay(
                    held@[string.at()].bytes,
                    heap@[string.at()].bytes,
                    at as int,
                );
            }
            at = at + 1;
        }
        proof {
            lemma_filled_wide(before, *heap, string, units@);
        }
        Some(string)
    }

    /// Join two strings into a new flat string.
    ///
    /// This copies both sides, which means `a = a + b` in a loop is quadratic.
    pub fn concat(heap: &mut BumpHeap, left: StringRef, right: StringRef) -> (string: Option<
        StringRef,
    >)
        requires
            old(heap).wf(),
            left.names(old(heap)@),
            right.names(old(heap)@),
        ensures
            final(heap).wf(),
            ({
                let joined = left.units(old(heap)@) + right.units(old(heap)@);
                &&& string is Some <==> joined.len() <= MAX_STRING_LENGTH && old(heap).has_room(
                    12 + payload_size(joined),
                )
                &&& string is None ==> *final(heap) == *old(heap)
                &&& string matches Some(made) ==> made_string(
                    *old(heap),
                    *final(heap),
                    made,
                    joined,
                )
            }),
    {
        let ghost before = *heap;
        let ghost front = left.units(before@);
        let ghost back = right.units(before@);
        let ghost joined = front + back;
        let left_length: u32 = left.len(heap.cage());
        let right_length: u32 = right.len(heap.cage());
        let both_narrow: bool = left.is_latin1(heap.cage()) && right.is_latin1(heap.cage());
        proof {
            lemma_joined_fits(front, back);
        }
        let length: u32 = left_length + right_length;
        if length > MAX_STRING_LENGTH {
            return None;
        }
        if both_narrow {
            let string = match StringRef::allocate(heap, length, 0, length as usize) {
                Some(string) => string,
                None => {
                    return None;
                },
            };
            let mut at: u32 = 0;
            while at < length
                invariant
                    at <= length <= MAX_STRING_LENGTH,
                    length == joined.len(),
                    joined == left.units(before@) + right.units(before@),
                    fits_in_bytes(joined),
                    left.names(before@),
                    right.names(before@),
                    being_filled(before, *heap, string, length, 0, length as int),
                    forall|i: int|
                        0 <= i < at ==> #[trigger] heap@[string.at()].bytes[12 + i] == joined[i],
                decreases length - at,
            {
                proof {
                    lemma_a_string_stays(before@, string.at(), heap@[string.at()], left);
                    lemma_a_string_stays(before@, string.at(), heap@[string.at()], right);
                }
                let unit: u16 = left.unit_before(heap.cage(), right, at);
                let ghost held = *heap;
                string.write_narrow(heap, at as usize, unit as u8);
                proof {
                    lemma_still_being_filled(
                        before,
                        held,
                        *heap,
                        string,
                        length,
                        0,
                        length as int,
                        12 + at,
                        1,
                    );
                }
                at = at + 1;
            }
            proof {
                lemma_filled_narrow(before, *heap, string, joined);
            }
            return Some(string);
        }
        // At least one side is UTF-16, and a UTF-16 string always holds a code unit above 255, so the
        // result genuinely needs the wide form and no second narrowing check is required.

        let string = match StringRef::allocate(heap, length, 1, length as usize * 2) {
            Some(string) => string,
            None => {
                return None;
            },
        };
        let mut at: u32 = 0;
        while at < length
            invariant
                at <= length <= MAX_STRING_LENGTH,
                length == joined.len(),
                joined == left.units(before@) + right.units(before@),
                left.names(before@),
                right.names(before@),
                being_filled(before, *heap, string, length, 1, 2 * length as int),
                forall|i: int|
                    0 <= i < at ==> #[trigger] u16_at(heap@[string.at()].bytes, 12 + 2 * i)
                        == joined[i],
            decreases length - at,
        {
            proof {
                lemma_a_string_stays(before@, string.at(), heap@[string.at()], left);
                lemma_a_string_stays(before@, string.at(), heap@[string.at()], right);
            }
            let unit: u16 = left.unit_before(heap.cage(), right, at);
            let ghost held = *heap;
            string.write_wide(heap, at as usize, unit);
            proof {
                lemma_still_being_filled(
                    before,
                    held,
                    *heap,
                    string,
                    length,
                    1,
                    2 * length as int,
                    12 + 2 * at,
                    2,
                );
                lemma_earlier_units_stay(
                    held@[string.at()].bytes,
                    heap@[string.at()].bytes,
                    at as int,
                );
            }
            at = at + 1;
        }
        proof {
            lemma_filled_wide(before, *heap, string, joined);
        }
        Some(string)
    }

    /// Length in UTF-16 code units, which is what JavaScript's `.length` reports.
    #[must_use]
    pub fn len(self, cage: &Cage) -> (length: u32)
        requires
            cage.laid_out(),
            self.names(cage@),
        ensures
            length == self.units(cage@).len(),
            length <= MAX_STRING_LENGTH,
    {
        self.word(cage, 4)
    }

    /// Whether the string has no characters.
    #[must_use]
    pub fn is_empty(self, cage: &Cage) -> (empty: bool)
        requires
            cage.laid_out(),
            self.names(cage@),
        ensures
            empty == (self.units(cage@).len() == 0),
    {
        self.len(cage) == 0
    }

    /// Whether the string is stored one byte per character.
    #[must_use]
    pub fn is_latin1(self, cage: &Cage) -> (latin1: bool)
        requires
            cage.laid_out(),
            self.names(cage@),
        ensures
            latin1 == narrow(cage@[self.at()].bytes),
            latin1 == fits_in_bytes(self.units(cage@)),
    {
        self.word(cage, 8) % 4 == 0
    }

    /// Whether this string is the canonical copy held by an atom table.
    #[must_use]
    pub fn is_interned(self, cage: &Cage) -> (interned: bool)
        requires
            cage.laid_out(),
            self.names(cage@),
        ensures
            interned == self.interned(cage@),
    {
        self.word(cage, 8) / 4 % 2 == 1
    }

    /// The Latin-1 payload, or `None` if this string is stored as UTF-16.
    #[must_use]
    pub fn latin1_bytes(self, cage: &Cage) -> (bytes: Option<Vec<u8>>)
        requires
            cage.laid_out(),
            self.names(cage@),
        ensures
            bytes is Some <==> fits_in_bytes(self.units(cage@)),
            bytes matches Some(payload) ==> widened(payload@) == self.units(cage@),
    {
        if !self.is_latin1(cage) {
            return None;
        }
        let length: u32 = self.len(cage);
        let mut bytes: Vec<u8> = Vec::new();
        let mut at: u32 = 0;
        while at < length
            invariant
                cage.laid_out(),
                self.names(cage@),
                narrow(cage@[self.at()].bytes),
                at <= length,
                length == self.units(cage@).len(),
                bytes@.len() == at,
                forall|i: int| 0 <= i < at ==> #[trigger] bytes@[i] == self.units(cage@)[i],
            decreases length - at,
        {
            bytes.push(self.unit(cage, at) as u8);
            at = at + 1;
        }
        assert(widened(bytes@) =~= self.units(cage@));
        Some(bytes)
    }

    /// The UTF-16 payload, or `None` if this string is stored as Latin-1.
    #[must_use]
    pub fn utf16_units(self, cage: &Cage) -> (units: Option<Vec<u16>>)
        requires
            cage.laid_out(),
            self.names(cage@),
        ensures
            units is None <==> fits_in_bytes(self.units(cage@)),
            units matches Some(payload) ==> payload@ == self.units(cage@),
    {
        if self.is_latin1(cage) {
            return None;
        }
        Some(self.code_units(cage))
    }

    /// The code unit at `index`, or `None` past the end.
    #[must_use]
    pub fn code_unit_at(self, cage: &Cage, index: u32) -> (unit: Option<u16>)
        requires
            cage.laid_out(),
            self.names(cage@),
        ensures
            unit == if index < self.units(cage@).len() {
                Some(self.units(cage@)[index as int])
            } else {
                None
            },
    {
        if index >= self.len(cage) {
            return None;
        }
        Some(self.unit(cage, index))
    }

    /// Every code unit, widened out of whichever representation is in use.
    ///
    /// This allocates, and it exists for the paths where the representation genuinely does not
    /// matter.
    #[must_use]
    pub fn code_units(self, cage: &Cage) -> (units: Vec<u16>)
        requires
            cage.laid_out(),
            self.names(cage@),
        ensures
            units@ == self.units(cage@),
    {
        let length: u32 = self.len(cage);
        let mut units: Vec<u16> = Vec::new();
        let mut at: u32 = 0;
        while at < length
            invariant
                cage.laid_out(),
                self.names(cage@),
                at <= length,
                length == self.units(cage@).len(),
                units@ == self.units(cage@).take(at as int),
            decreases length - at,
        {
            units.push(self.unit(cage, at));
            at = at + 1;
            assert(units@ =~= self.units(cage@).take(at as int));
        }
        assert(units@ =~= self.units(cage@));
        units
    }

    /// The string as Rust text when it is stored as ASCII, or `None` if it is not.
    ///
    /// This is the path most real strings take, and it is a separate method from
    /// [`StringRef::to_utf8`] because it never has to convert anything.
    #[must_use]
    pub fn as_ascii(self, cage: &Cage) -> (text: Option<String>)
        requires
            cage.laid_out(),
            self.names(cage@),
        ensures
            text is Some <==> is_ascii_units(self.units(cage@)),
            text matches Some(found) ==> utf16(found@) == self.units(cage@) && found@ == text_from(
                self.units(cage@),
                0,
            ),
    {
        let units = self.code_units(cage);
        let mut at: usize = 0;
        while at < units.len()
            invariant
                at <= units@.len(),
                units@ == self.units(cage@),
                forall|i: int| 0 <= i < at ==> #[trigger] units@[i] < 0x80,
            decreases units@.len() - at,
        {
            if units[at] >= 0x80 {
                assert(self.units(cage@)[at as int] >= 0x80);
                return None;
            }
            at = at + 1;
        }
        proof {
            lemma_small_units_have_no_surrogates(units@, 0);
            crate::gc::utf16::law_units_survive_decoding(units@);
        }
        Some(decode_lossy(&units))
    }

    /// The string as Rust text.
    ///
    /// # Errors
    ///
    /// Returns [`LoneSurrogate`] when the string contains an unpaired surrogate, because there is no
    /// UTF-8 for one. JavaScript can build such a string and Rust cannot represent it, so the caller
    /// chooses rather than something being silently substituted.
    pub fn to_utf8(self, cage: &Cage) -> (text: Result<String, LoneSurrogate>)
        requires
            cage.laid_out(),
            self.names(cage@),
        ensures
            text is Ok <==> first_lone(self.units(cage@), 0) is None,
            text matches Ok(found) ==> found@ == text_from(self.units(cage@), 0) && utf16(found@)
                == self.units(cage@),
            text matches Err(error) ==> first_lone(self.units(cage@), 0) == Some(error.index as int)
                && error.unit == self.units(cage@)[error.index as int],
    {
        let units = self.code_units(cage);
        match find_lone(&units) {
            Some(at) => Err(LoneSurrogate { index: at as u32, unit: units[at] }),
            None => {
                proof {
                    crate::gc::utf16::law_units_survive_decoding(units@);
                }
                Ok(decode_lossy(&units))
            },
        }
    }

    /// The string as Rust text, with unpaired surrogates replaced by the replacement character.
    ///
    /// This is what printing wants. It is a separate method from [`StringRef::to_utf8`] because
    /// substituting a character is a decision.
    #[must_use]
    pub fn to_utf8_lossy(self, cage: &Cage) -> (text: String)
        requires
            cage.laid_out(),
            self.names(cage@),
        ensures
            text@ == text_from(self.units(cage@), 0),
    {
        let units = self.code_units(cage);
        decode_lossy(&units)
    }

    /// The string's hash, computing and caching it on the first call.
    ///
    /// Twenty eight bits, because the other four hold the flags.
    #[must_use]
    pub fn hash(self, heap: &mut BumpHeap) -> (hash: u32)
        requires
            old(heap).wf(),
            self.names(old(heap)@),
        ensures
            final(heap).wf(),
            final(heap).stays(*old(heap)),
            hash == hash_of(self.units(old(heap)@)),
            rewritten(old(heap)@, final(heap)@, self, true, self.interned(old(heap)@)),
    {
        let word: u32 = self.word(heap.cage(), 8);
        if word / 8 % 2 == 1 {
            assert(heap@ =~= old(heap)@.insert(self.at(), old(heap)@[self.at()]));
            return word / 16;
        }
        let hash: u32 = self.peek_hash(heap.cage());
        proof {
            lemma_hash_is_small(self.units(heap@));
            lemma_hash_field(word, hash);
            lemma_header_word_changes(heap@, self, (hash * 16 + 8 + word) as u32);
        }
        self.set_word(heap, hash * 16 + 8 + word);
        hash
    }

    /// The string's hash, from its header when it is there and computed when it is not.
    pub(crate) fn peek_hash(self, cage: &Cage) -> (hash: u32)
        requires
            cage.laid_out(),
            self.names(cage@),
        ensures
            hash == hash_of(self.units(cage@)),
    {
        let word: u32 = self.word(cage, 8);
        if word / 8 % 2 == 1 {
            return word / 16;
        }
        let units = self.code_units(cage);
        hash_code_units(&units)
    }

    /// Whether two strings hold the same characters.
    ///
    /// A length check, a representation check and then the characters, in that order, which is
    /// cheapest first.
    #[must_use]
    pub fn equals(self, cage: &Cage, other: StringRef) -> (equal: bool)
        requires
            cage.laid_out(),
            self.names(cage@),
            other.names(cage@),
        ensures
            equal == (self.units(cage@) == other.units(cage@)),
    {
        if self.0 == other.0 {
            return true;
        }
        if self.len(cage) != other.len(cage) || self.is_latin1(cage) != other.is_latin1(cage) {
            // Representation is canonical, so two equal strings always agree on it and this is a
            // rejection rather than a reason to widen and compare.
            return false;
        }
        let length: u32 = self.len(cage);
        let mut at: u32 = 0;
        while at < length
            invariant
                cage.laid_out(),
                self.names(cage@),
                other.names(cage@),
                at <= length,
                length == self.units(cage@).len(),
                length == other.units(cage@).len(),
                forall|i: int|
                    0 <= i < at ==> #[trigger] self.units(cage@)[i] == other.units(cage@)[i],
            decreases length - at,
        {
            if self.unit(cage, at) != other.unit(cage, at) {
                assert(self.units(cage@)[at as int] != other.units(cage@)[at as int]);
                return false;
            }
            at = at + 1;
        }
        assert(self.units(cage@) =~= other.units(cage@));
        true
    }

    /// Order two strings the way `<` orders them in JavaScript.
    ///
    /// Code unit order, which is not the same as code point order and is not any human language's
    /// idea of alphabetical.
    #[must_use]
    pub fn compare(self, cage: &Cage, other: StringRef) -> (order: Ordering)
        requires
            cage.laid_out(),
            self.names(cage@),
            other.names(cage@),
        ensures
            order == Ordering::Less <==> comes_before(self.units(cage@), other.units(cage@)),
            order == Ordering::Greater <==> comes_before(other.units(cage@), self.units(cage@)),
            order == Ordering::Equal <==> self.units(cage@) == other.units(cage@),
    {
        proof {
            law_code_unit_order_is_total(self.units(cage@), other.units(cage@));
        }
        let difference = self.first_difference(cage, other);
        match (self.code_unit_at(cage, difference), other.code_unit_at(cage, difference)) {
            (Some(left), Some(right)) => {
                if left < right {
                    Ordering::Less
                } else {
                    Ordering::Greater
                }
            },
            (None, Some(_)) => Ordering::Less,
            (Some(_), None) => Ordering::Greater,
            (None, None) => {
                assert(self.units(cage@) =~= other.units(cage@));
                Ordering::Equal
            },
        }
    }

    /// How many code units two strings start with in common.
    fn first_difference(self, cage: &Cage, other: StringRef) -> (at: u32)
        requires
            cage.laid_out(),
            self.names(cage@),
            other.names(cage@),
        ensures
            at <= self.units(cage@).len(),
            at <= other.units(cage@).len(),
            forall|i: int| 0 <= i < at ==> self.units(cage@)[i] == other.units(cage@)[i],
            at < self.units(cage@).len() && at < other.units(cage@).len() ==> self.units(
                cage@,
            )[at as int] != other.units(cage@)[at as int],
            comes_before(self.units(cage@), other.units(cage@)) == before_from(
                self.units(cage@),
                other.units(cage@),
                at as int,
            ),
            comes_before(other.units(cage@), self.units(cage@)) == before_from(
                other.units(cage@),
                self.units(cage@),
                at as int,
            ),
    {
        let left_length: u32 = self.len(cage);
        let right_length: u32 = other.len(cage);
        let mut at: u32 = 0;
        while at < left_length && at < right_length && self.unit(cage, at) == other.unit(cage, at)
            invariant
                cage.laid_out(),
                self.names(cage@),
                other.names(cage@),
                left_length == self.units(cage@).len(),
                right_length == other.units(cage@).len(),
                at <= left_length,
                at <= right_length,
                forall|i: int| 0 <= i < at ==> self.units(cage@)[i] == other.units(cage@)[i],
                comes_before(self.units(cage@), other.units(cage@)) == before_from(
                    self.units(cage@),
                    other.units(cage@),
                    at as int,
                ),
                comes_before(other.units(cage@), self.units(cage@)) == before_from(
                    other.units(cage@),
                    self.units(cage@),
                    at as int,
                ),
            decreases left_length - at,
        {
            at = at + 1;
        }
        at
    }

    /// Whether the string holds the same characters as some Rust text.
    ///
    /// Used by the atom table to answer a lookup without allocating a candidate string first.
    #[must_use]
    pub fn equals_str(self, cage: &Cage, text: &str) -> (equal: bool)
        requires
            cage.laid_out(),
            self.names(cage@),
        ensures
            equal == (self.units(cage@) == utf16(text@)),
    {
        let expected = encode(text);
        self.equals_units(cage, &expected)
    }

    /// Whether the string holds these code units.
    pub(crate) fn equals_units(self, cage: &Cage, expected: &Vec<u16>) -> (equal: bool)
        requires
            cage.laid_out(),
            self.names(cage@),
        ensures
            equal == (self.units(cage@) == expected@),
    {
        let length: u32 = self.len(cage);
        if length as usize != expected.len() {
            return false;
        }
        let mut at: u32 = 0;
        while at < length
            invariant
                cage.laid_out(),
                self.names(cage@),
                at <= length,
                length == self.units(cage@).len(),
                length == expected@.len(),
                forall|i: int| 0 <= i < at ==> #[trigger] self.units(cage@)[i] == expected@[i],
            decreases length - at,
        {
            if self.unit(cage, at) != expected[at as usize] {
                assert(self.units(cage@)[at as int] != expected@[at as int]);
                return false;
            }
            at = at + 1;
        }
        assert(self.units(cage@) =~= expected@);
        true
    }

    /// The compressed slot behind this reference, for storing in an object or a table.
    #[must_use]
    pub fn slot(self) -> (slot: Slot)
        ensures
            slot == self.slotted(),
    {
        self.0
    }

    /// Rebuild a reference from a slot that came out of [`StringRef::slot`].
    ///
    /// Returns `None` for a slot holding an integer, which is the only thing this can check.
    #[must_use]
    pub fn from_slot(slot: Slot) -> (string: Option<StringRef>)
        ensures
            string is Some <==> slot.points(),
            string matches Some(found) ==> found.slotted() == slot,
    {
        if slot.is_pointer() {
            Some(StringRef(slot))
        } else {
            None
        }
    }

    /// Mark this string as the canonical copy in an atom table.
    pub(crate) fn mark_interned(self, heap: &mut BumpHeap)
        requires
            old(heap).wf(),
            self.names(old(heap)@),
        ensures
            final(heap).wf(),
            final(heap).stays(*old(heap)),
            rewritten(old(heap)@, final(heap)@, self, self.hashed(old(heap)@), true),
    {
        let word: u32 = self.word(heap.cage(), 8);
        if word / 4 % 2 == 1 {
            assert(heap@ =~= old(heap)@.insert(self.at(), old(heap)@[self.at()]));
            return ;
        }
        proof {
            lemma_interned_flag(word);
            lemma_header_word_changes(heap@, self, (word + 4) as u32);
        }
        self.set_word(heap, word + 4);
    }

    /// One code unit, which has to be there.
    pub(crate) fn unit(self, cage: &Cage, index: u32) -> (unit: u16)
        requires
            cage.laid_out(),
            self.names(cage@),
            index < self.units(cage@).len(),
        ensures
            unit == self.units(cage@)[index as int],
    {
        proof {
            cage.lemma_allocations_are_inside(self.at());
            cage.lemma_addresses_are_wide();
        }
        let offset: u32 = self.0.to_bits() - 1;
        if self.is_latin1(cage) {
            read_u8(cage, offset, STRING_HEADER_SIZE + index as usize) as u16
        } else {
            read_u16(cage, offset, STRING_HEADER_SIZE + 2 * index as usize)
        }
    }

    /// One code unit of this string with another one behind it.
    fn unit_before(self, cage: &Cage, back: StringRef, index: u32) -> (unit: u16)
        requires
            cage.laid_out(),
            self.names(cage@),
            back.names(cage@),
            index < self.units(cage@).len() + back.units(cage@).len(),
        ensures
            unit == (self.units(cage@) + back.units(cage@))[index as int],
    {
        let length: u32 = self.len(cage);
        if index < length {
            self.unit(cage, index)
        } else {
            back.unit(cage, index - length)
        }
    }

    fn allocate(heap: &mut BumpHeap, length: u32, kind: u32, payload_bytes: usize) -> (string: Option<
        StringRef,
    >)
        requires
            old(heap).wf(),
            kind <= 1,
            payload_bytes <= 2 * MAX_STRING_LENGTH,
        ensures
            string is Some <==> old(heap).has_room(12 + payload_bytes),
            string is None ==> *final(heap) == *old(heap),
            string matches Some(made) ==> being_filled(
                *old(heap),
                *final(heap),
                made,
                length,
                kind,
                payload_bytes as int,
            ),
    {
        broadcast use group_words;

        let ghost before = *heap;
        let slot = match allocate_slot(heap, STRING_HEADER_SIZE + payload_bytes, ObjectKind::String) {
            Some(slot) => slot,
            None => {
                return None;
            },
        };
        let offset: u32 = slot.to_bits() - 1;
        write_u32(heap, offset, 4, length);
        write_u32(heap, offset, 8, kind);
        let string = StringRef(slot);
        proof {
            let block = Block::fresh(ObjectKind::String, (12 + payload_bytes) as nat);
            assert(heap@ =~= before@.insert(
                string.at(),
                block.put_u32(4, length).put_u32(8, kind),
            ));
        }
        Some(string)
    }

    fn word(self, cage: &Cage, at: usize) -> (word: u32)
        requires
            cage.laid_out(),
            self.names(cage@),
            at == 4 || at == 8,
        ensures
            word == u32_at(cage@[self.at()].bytes, at as int),
    {
        let offset: u32 = self.0.to_bits() - 1;
        read_u32(cage, offset, at)
    }

    fn set_word(self, heap: &mut BumpHeap, value: u32)
        requires
            old(heap).laid_out(),
            self.names(old(heap)@),
        ensures
            final(heap).laid_out(),
            final(heap).stays(*old(heap)),
            final(heap)@ == old(heap)@.insert(
                self.at(),
                old(heap)@[self.at()].put_u32(8, value),
            ),
    {
        let offset: u32 = self.0.to_bits() - 1;
        write_u32(heap, offset, 8, value);
    }

    fn write_narrow(self, heap: &mut BumpHeap, index: usize, value: u8)
        requires
            old(heap).laid_out(),
            self.slotted().points(),
            old(heap)@.contains_key(self.at()),
            index < MAX_STRING_LENGTH,
            12 + index < old(heap)@[self.at()].bytes.len(),
        ensures
            final(heap).laid_out(),
            final(heap).stays(*old(heap)),
            final(heap)@ == old(heap)@.insert(
                self.at(),
                old(heap)@[self.at()].put_u8(12 + index, value),
            ),
            only_byte_changes(
                old(heap)@[self.at()].bytes,
                final(heap)@[self.at()].bytes,
                12 + index,
                1,
            ),
            final(heap)@[self.at()].bytes[12 + index] == value,
    {
        let offset: u32 = self.0.to_bits() - 1;
        heap.write_byte(offset, STRING_HEADER_SIZE + index, value);
        proof {
            lemma_header_survives(old(heap)@[self.at()].bytes, heap@[self.at()].bytes, 12 + index, 1);
        }
    }

    fn write_wide(self, heap: &mut BumpHeap, index: usize, value: u16)
        requires
            old(heap).laid_out(),
            self.slotted().points(),
            old(heap)@.contains_key(self.at()),
            index < MAX_STRING_LENGTH,
            12 + 2 * index + 2 <= old(heap)@[self.at()].bytes.len(),
        ensures
            final(heap).laid_out(),
            final(heap).stays(*old(heap)),
            final(heap)@ == old(heap)@.insert(
                self.at(),
                old(heap)@[self.at()].put_u16(12 + 2 * index, value),
            ),
            only_byte_changes(
                old(heap)@[self.at()].bytes,
                final(heap)@[self.at()].bytes,
                12 + 2 * index,
                2,
            ),
            u16_at(final(heap)@[self.at()].bytes, 12 + 2 * index) == value,
    {
        broadcast use group_words;

        let offset: u32 = self.0.to_bits() - 1;
        write_u16(heap, offset, STRING_HEADER_SIZE + 2 * index, value);
        proof {
            lemma_u16_changes_two_bytes(old(heap)@[self.at()].bytes, 12 + 2 * index, value);
            lemma_header_survives(
                old(heap)@[self.at()].bytes,
                heap@[self.at()].bytes,
                12 + 2 * index,
                2,
            );
        }
    }
}

/// Bytes as code units.
pub open spec fn widened(bytes: Seq<u8>) -> Seq<u16> {
    Seq::new(bytes.len(), |i: int| bytes[i] as u16)
}

/// Whether every code unit is ASCII.
pub open spec fn is_ascii_units(units: Seq<u16>) -> bool {
    forall|i: int| 0 <= i < units.len() ==> #[trigger] units[i] < 0x80
}

/// What changes when the header word of a string is rewritten: whether it is hashed and interned, and
/// nothing else about it or about any other block.
pub open spec fn rewritten(
    before: Blocks,
    after: Blocks,
    string: StringRef,
    hashed: bool,
    interned: bool,
) -> bool {
    &&& after == before.insert(string.at(), after[string.at()])
    &&& string.names(after)
    &&& string.units(after) == string.units(before)
    &&& string.hashed(after) == hashed
    &&& string.interned(after) == interned
    &&& after[string.at()].bytes.len() == before[string.at()].bytes.len()
}

/// A string whose header is written and whose characters are being.
spec fn being_filled(
    before: BumpHeap,
    heap: BumpHeap,
    string: StringRef,
    length: u32,
    kind: u32,
    payload: int,
) -> bool {
    &&& before.wf()
    &&& heap.laid_out()
    &&& string.slotted().points()
    &&& string.at() == before.next()
    &&& 0 <= string.at() <= u32::MAX
    &&& string.at() % 8 == 0
    &&& !before@.contains_key(string.at())
    &&& heap@.contains_key(string.at())
    &&& heap@ == before@.insert(string.at(), heap@[string.at()])
    &&& heap@[string.at()].kind == ObjectKind::String
    &&& heap@[string.at()].bytes.len() == 12 + payload
    &&& u32_at(heap@[string.at()].bytes, 0) == 0
    &&& u32_at(heap@[string.at()].bytes, 4) == length
    &&& u32_at(heap@[string.at()].bytes, 8) == kind
    &&& moved_on(before, heap, ObjectKind::String, 12 + payload)
}

/// Two runs of bytes that differ at most in `width` bytes from `at` on, past the header.
spec fn only_byte_changes(before: Seq<u8>, after: Seq<u8>, at: int, width: int) -> bool {
    &&& after.len() == before.len()
    &&& forall|i: int|
        0 <= i < before.len() && !(at <= i < at + width) ==> #[trigger] after[i] == before[i]
    &&& u32_at(after, 0) == u32_at(before, 0)
    &&& u32_at(after, 4) == u32_at(before, 4)
    &&& u32_at(after, 8) == u32_at(before, 8)
}

proof fn lemma_header_survives(before: Seq<u8>, after: Seq<u8>, at: int, width: int)
    requires
        12 <= at,
        12 <= before.len(),
        after.len() == before.len(),
        forall|i: int|
            0 <= i < before.len() && !(at <= i < at + width) ==> #[trigger] after[i] == before[i],
    ensures
        only_byte_changes(before, after, at, width),
{
    lemma_u32_is_its_bytes(after, before, 0);
    lemma_u32_is_its_bytes(after, before, 4);
    lemma_u32_is_its_bytes(after, before, 8);
}

/// Writing a character leaves everything else about a string that is being filled as it was.
proof fn lemma_still_being_filled(
    before: BumpHeap,
    heap: BumpHeap,
    after: BumpHeap,
    string: StringRef,
    length: u32,
    kind: u32,
    payload: int,
    at: int,
    width: int,
)
    requires
        being_filled(before, heap, string, length, kind, payload),
        after.laid_out(),
        after.stays(heap),
        after@ == heap@.insert(string.at(), after@[string.at()]),
        after@[string.at()].kind == ObjectKind::String,
        only_byte_changes(heap@[string.at()].bytes, after@[string.at()].bytes, at, width),
    ensures
        being_filled(before, after, string, length, kind, payload),
{
    assert(after@ =~= before@.insert(string.at(), after@[string.at()]));
}

/// A string stays what it is when a block is added elsewhere.
pub proof fn lemma_a_string_stays(blocks: Blocks, offset: int, block: Block, string: StringRef)
    requires
        string.names(blocks),
        offset != string.at(),
    ensures
        string.names(blocks.insert(offset, block)),
        string.units(blocks.insert(offset, block)) == string.units(blocks),
        string.hashed(blocks.insert(offset, block)) == string.hashed(blocks),
        string.interned(blocks.insert(offset, block)) == string.interned(blocks),
{
}

/// Writing a code unit leaves those before it as they were.
proof fn lemma_earlier_units_stay(before: Seq<u8>, after: Seq<u8>, index: int)
    requires
        0 <= index,
        12 + 2 * index + 2 <= before.len(),
        only_byte_changes(before, after, 12 + 2 * index, 2),
    ensures
        forall|i: int|
            0 <= i < index ==> #[trigger] u16_at(after, 12 + 2 * i) == u16_at(before, 12 + 2 * i),
{
    assert forall|i: int| 0 <= i < index implies #[trigger] u16_at(after, 12 + 2 * i) == u16_at(
        before,
        12 + 2 * i,
    ) by {
        lemma_u16_is_its_bytes(after, before, 12 + 2 * i);
    }
}

/// The words that stay apart when the interned flag goes up.
proof fn lemma_interned_flag(word: u32)
    requires
        word / 4 % 2 == 0,
    ensures
        word + 4 <= u32::MAX,
        (word + 4) % 4 == word % 4,
        (word + 4) / 4 % 2 == 1,
        (word + 4) / 8 == word as int / 8,
        (word + 4) / 16 == word as int / 16,
        word < 8 ==> word + 4 < 8,
{
    let eights = word as int / 8;
    let rest = word as int % 8;
    assert(word == 8 * eights + rest);
    let fours = word as int / 4;
    assert(word == 4 * fours + word as int % 4);
    assert(fours % 2 == 0);
    assert(fours == 2 * (fours / 2));
    assert(word == 8 * (fours / 2) + word as int % 4);
    assert(eights == fours / 2);
    assert((word + 4) / 4 == fours + 1);
    assert((word + 4) / 8 == eights);
    assert((word + 4) / 16 == eights / 2);
    assert(word as int / 16 == eights / 2);
}

/// The words that stay apart when a hash goes in.
proof fn lemma_hash_field(word: u32, hash: u32)
    requires
        word < 8,
        hash < 268435456,
    ensures
        hash * 16 + 8 + word <= u32::MAX,
        (hash * 16 + 8 + word) % 4 == word % 4,
        (hash * 16 + 8 + word) / 4 % 2 == word / 4 % 2,
        (hash * 16 + 8 + word) / 8 % 2 == 1,
        (hash * 16 + 8 + word) / 16 == hash,
{
    let whole = hash * 16 + 8 + word;
    let fours = word as int / 4;
    assert(word == 4 * fours + word % 4);
    assert(whole == 4 * (4 * hash + 2 + fours) + word % 4);
    assert(whole / 4 == 4 * hash + 2 + fours);
    assert(whole == 8 * (2 * hash + 1) + word);
    assert(whole / 8 == 2 * hash + 1);
}

/// A Latin-1 string with every character written is a string.
proof fn lemma_filled_narrow(
    before: BumpHeap,
    heap: BumpHeap,
    string: StringRef,
    units: Seq<u16>,
)
    requires
        units.len() <= MAX_STRING_LENGTH,
        fits_in_bytes(units),
        being_filled(before, heap, string, units.len() as u32, 0, units.len() as int),
        forall|i: int| 0 <= i < units.len() ==> #[trigger] heap@[string.at()].bytes[12 + i] == units[i],
    ensures
        heap.wf(),
        made_string(before, heap, string, units),
{
    let bytes = heap@[string.at()].bytes;
    assert(units_in(bytes) =~= units);
    lemma_a_string_joins_the_heap(before@, string.at(), heap@[string.at()]);
}

/// A UTF-16 string with every character written is a string.
proof fn lemma_filled_wide(before: BumpHeap, heap: BumpHeap, string: StringRef, units: Seq<u16>)
    requires
        units.len() <= MAX_STRING_LENGTH,
        !fits_in_bytes(units),
        being_filled(before, heap, string, units.len() as u32, 1, 2 * units.len() as int),
        forall|i: int|
            0 <= i < units.len() ==> #[trigger] u16_at(heap@[string.at()].bytes, 12 + 2 * i)
                == units[i],
    ensures
        heap.wf(),
        made_string(before, heap, string, units),
{
    let bytes = heap@[string.at()].bytes;
    assert(units_in(bytes) =~= units);
    lemma_a_string_joins_the_heap(before@, string.at(), heap@[string.at()]);
}

/// A block with a string in it can be added to a heap, or take the place of a string, without
/// disturbing anything else.
proof fn lemma_a_string_joins_the_heap(blocks: Blocks, offset: int, block: Block)
    requires
        objects_hold_together(blocks),
        !blocks.contains_key(offset) || blocks[offset].kind == ObjectKind::String,
        block.kind == ObjectKind::String,
        string_laid_out(block.bytes),
    ensures
        objects_hold_together(blocks.insert(offset, block)),
{
    crate::gc::object::lemma_no_shape_joins(blocks, offset, block);
    crate::gc::ordinary::lemma_objects_carry_over(blocks, blocks.insert(offset, block));
}

/// What rewriting the flags and the hash of a string does.
proof fn lemma_header_word_changes(blocks: Blocks, string: StringRef, word: u32)
    requires
        objects_hold_together(blocks),
        string.names(blocks),
        word % 4 == u32_at(blocks[string.at()].bytes, 8) % 4,
        word / 8 % 2 == 1 ==> word / 16 == hash_of(string.units(blocks)),
        word / 8 % 2 == 0 ==> word < 8,
    ensures
        ({
            let after = blocks.insert(string.at(), blocks[string.at()].put_u32(8, word));
            &&& objects_hold_together(after)
            &&& rewritten(blocks, after, string, word / 8 % 2 == 1, word / 4 % 2 == 1)
        }),
{
    broadcast use group_words;

    let before = blocks[string.at()].bytes;
    let block = blocks[string.at()].put_u32(8, word);
    let after = blocks.insert(string.at(), block);
    let bytes = block.bytes;
    lemma_u32_changes_four_bytes(before, 8, word);
    assert(units_in(bytes) =~= units_in(before)) by {
        assert forall|i: int| 0 <= i < unit_count(before) implies #[trigger] unit_at(bytes, i)
            == unit_at(before, i) by {
            if !narrow(before) {
                lemma_u16_is_its_bytes(bytes, before, 12 + 2 * i);
            }
        }
    }
    assert(string_laid_out(bytes));
    lemma_a_string_joins_the_heap(blocks, string.at(), block);
    assert(after =~= blocks.insert(string.at(), after[string.at()]));
}

/// A hash leaves room for the flags below it.
proof fn lemma_hash_is_small(units: Seq<u16>)
    ensures
        hash_of(units) < 268435456,
{
    reveal(hash_of);
}

/// Whether two strings joined fit in bytes is whether both do.
proof fn lemma_joined_fits(front: Seq<u16>, back: Seq<u16>)
    ensures
        fits_in_bytes(front + back) == (fits_in_bytes(front) && fits_in_bytes(back)),
{
    let joined = front + back;
    if fits_in_bytes(joined) {
        assert forall|i: int| 0 <= i < front.len() implies #[trigger] front[i] <= 0xFF by {
            assert(joined[i] == front[i]);
        }
        assert forall|i: int| 0 <= i < back.len() implies #[trigger] back[i] <= 0xFF by {
            assert(joined[front.len() + i] == back[i]);
        }
    }
}

proof fn lemma_small_units_have_no_surrogates(units: Seq<u16>, from: int)
    requires
        is_ascii_units(units),
    ensures
        first_lone(units, from) is None,
    decreases units.len() - from,
{
    if 0 <= from < units.len() {
        assert(units[from] < 0x80);
        lemma_small_units_have_no_surrogates(units, from + 1);
    }
}

fn all_narrow(units: &[u16]) -> (fits: bool)
    ensures
        fits == fits_in_bytes(units@),
{
    let mut at: usize = 0;
    while at < units.len()
        invariant
            at <= units@.len(),
            forall|i: int| 0 <= i < at ==> #[trigger] units@[i] <= 0xFF,
        decreases units@.len() - at,
    {
        if units[at] >= 0x100 {
            assert(units@[at as int] > 0xFF);
            return false;
        }
        at = at + 1;
    }
    true
}

/// The string hash, over code units so that it does not depend on the representation.
///
/// A code unit at a time rather than eight bytes at a time. That is the only definition that gives
/// the same answer for a Latin-1 string, the UTF-16 string with the same characters, and a Rust
/// `&str` being looked up without being allocated first.
///
/// Not resistant to hash flooding. The fix is a per process random seed.
fn hash_code_units(units: &Vec<u16>) -> (hash: u32)
    ensures
        hash == hash_of(units@),
{
    let mut state: u64 = HASH_MULTIPLIER;
    let mut at: usize = 0;
    assert(units@.take(0) =~= Seq::<u16>::empty());
    while at < units.len()
        invariant
            at <= units@.len(),
            state == mixed_all(units@.take(at as int)),
        decreases units@.len() - at,
    {
        let unit: u16 = units[at];
        let product: u64 = (state ^ (unit as u64)).wrapping_mul(HASH_MULTIPLIER);
        state = (product << 29) | (product >> 35);
        proof {
            let next = units@.take(at + 1);
            assert(next.drop_last() =~= units@.take(at as int));
            assert(next.last() == unit);
        }
        at = at + 1;
    }
    assert(units@.take(at as int) =~= units@);
    // Folding the length in stops "a" and "aa" from colliding through the multiplier alone, and the
    // final avalanche is what moves the mixed high bits down into the bits the table masks.
    let measured: u64 = state ^ (units.len() as u64).wrapping_mul(HASH_MULTIPLIER);
    let folded: u64 = measured ^ (measured >> 33);
    let spread: u64 = folded.wrapping_mul(HASH_MULTIPLIER);
    let done: u64 = spread ^ (spread >> 29);
    proof {
        reveal(hash_of);
    }
    (done % 268435456) as u32
}

/// The hash of some Rust text, matching what the string it would build reports.
#[must_use]
pub fn hash_str(text: &str) -> (hash: u32)
    ensures
        hash == hash_of(utf16(text@)),
{
    let units = encode(text);
    hash_code_units(&units)
}

/// Code unit order is total: of two strings exactly one of these holds, that the first comes before
/// the second, that the second comes before the first, or that they are the same.
pub proof fn law_code_unit_order_is_total(left: Seq<u16>, right: Seq<u16>)
    ensures
        left == right <==> !comes_before(left, right) && !comes_before(right, left),
        !(comes_before(left, right) && comes_before(right, left)),
{
    lemma_order_from(left, right, 0);
    if !comes_before(left, right) && !comes_before(right, left) {
        assert(left =~= right);
    }
}

proof fn lemma_order_from(left: Seq<u16>, right: Seq<u16>, from: int)
    requires
        0 <= from,
        from <= left.len(),
        from <= right.len(),
    ensures
        !(before_from(left, right, from) && before_from(right, left, from)),
        !before_from(left, right, from) && !before_from(right, left, from) ==> left.len()
            == right.len() && forall|i: int| from <= i < left.len() ==> left[i] == right[i],
        (left.len() == right.len() && forall|i: int| from <= i < left.len() ==> left[i] == right[i])
            ==> !before_from(left, right, from) && !before_from(right, left, from),
    decreases left.len() - from,
{
    if from < left.len() && from < right.len() && left[from] == right[from] {
        lemma_order_from(left, right, from + 1);
    }
}

/// Code unit order is transitive.
pub proof fn law_code_unit_order_is_transitive(a: Seq<u16>, b: Seq<u16>, c: Seq<u16>)
    requires
        comes_before(a, b),
        comes_before(b, c),
    ensures
        comes_before(a, c),
{
    lemma_transitive_from(a, b, c, 0);
}

proof fn lemma_transitive_from(a: Seq<u16>, b: Seq<u16>, c: Seq<u16>, from: int)
    requires
        0 <= from,
        before_from(a, b, from),
        before_from(b, c, from),
    ensures
        before_from(a, c, from),
    decreases a.len() - from,
{
    if from < a.len() && from < b.len() && from < c.len() && a[from] == b[from] && b[from]
        == c[from] {
        lemma_transitive_from(a, b, c, from + 1);
    }
}

/// A string built from text holds that text and no other: its code units read back as the text, two
/// strings hold the same code units exactly when they were built from the same text, and the hash of
/// the string is the hash of the text.
pub proof fn law_a_string_holds_its_text(
    blocks: Blocks,
    string: StringRef,
    text: Seq<char>,
    other: Seq<char>,
)
    requires
        string.names(blocks),
        string.units(blocks) == utf16(text),
    ensures
        text_from(string.units(blocks), 0) == text,
        first_lone(string.units(blocks), 0) is None,
        string.units(blocks) == utf16(other) <==> text == other,
        hash_of(string.units(blocks)) == hash_of(utf16(text)),
        narrow(blocks[string.at()].bytes) <==> forall|i: int|
            0 <= i < text.len() ==> (#[trigger] text[i]) as int <= 0xFF,
{
    crate::gc::utf16::law_text_survives_encoding(text);
    law_encoding_is_one_to_one(text, other);
    lemma_byte_text_is_its_own_units(text);
}

/// The representation is canonical: two strings with the same characters are stored the same way,
/// and hash the same.
pub proof fn law_equal_strings_agree_on_representation(
    blocks: Blocks,
    left: StringRef,
    right: StringRef,
)
    requires
        left.names(blocks),
        right.names(blocks),
        left.units(blocks) == right.units(blocks),
    ensures
        narrow(blocks[left.at()].bytes) == narrow(blocks[right.at()].bytes),
        hash_of(left.units(blocks)) == hash_of(right.units(blocks)),
{
}

/// Strings are ordered by their code units as numbers: the first place where two of them differ
/// decides, and where one is the start of the other the shorter one comes first.
pub proof fn law_the_first_code_unit_that_differs_decides(
    left: Seq<u16>,
    right: Seq<u16>,
    place: int,
)
    requires
        0 <= place <= left.len(),
        place <= right.len(),
        forall|i: int| 0 <= i < place ==> left[i] == right[i],
    ensures
        place < left.len() && place < right.len() && left[place] != right[place] ==> (comes_before(
            left,
            right,
        ) <==> (left[place] as int) < right[place] as int),
        place == left.len() && place < right.len() ==> comes_before(left, right) && !comes_before(
            right,
            left,
        ),
        place == left.len() && place == right.len() ==> !comes_before(left, right),
{
    lemma_a_common_start_decides_nothing(left, right, place, 0);
    lemma_a_common_start_decides_nothing(right, left, place, 0);
}

proof fn lemma_a_common_start_decides_nothing(left: Seq<u16>, right: Seq<u16>, place: int, from: int)
    requires
        0 <= from <= place <= left.len(),
        place <= right.len(),
        forall|i: int| 0 <= i < place ==> left[i] == right[i],
    ensures
        before_from(left, right, from) == before_from(left, right, place),
    decreases place - from,
{
    if from < place {
        lemma_a_common_start_decides_nothing(left, right, place, from + 1);
    }
}

/// How a string is stored: one byte for each character when all of them are up to FF, and two for each
/// otherwise. ASCII is up to 7F.
pub proof fn law_how_much_room_characters_take(units: Seq<u16>, i: int)
    ensures
        (forall|k: int| 0 <= k < units.len() ==> (#[trigger] units[k]) as int <= 255)
            ==> payload_size(units) == units.len(),
        0 <= i < units.len() && units[i] as int > 255 ==> payload_size(units) == 2 * units.len(),
        (forall|k: int| 0 <= k < units.len() ==> (#[trigger] units[k]) as int <= 127)
            ==> is_ascii_units(units),
        0 <= i < units.len() && units[i] as int > 127 ==> !is_ascii_units(units),
{
}

/// The hash starts at the multiplier, and takes each code unit in by an exclusive or, a product and a
/// turn by twenty nine bits. The length goes in last, and two shifted foldings leave twenty eight bits.
pub proof fn law_how_the_hash_is_made(units: Seq<u16>, unit: u16)
    ensures
        mixed_all(Seq::<u16>::empty()) == 0x9E37_79B1_85EB_CA87u64,
        ({
            let product = (((mixed_all(units) ^ (unit as u64)) * 0x9E37_79B1_85EB_CA87u64)
                % 0x1_0000_0000_0000_0000) as u64;
            mixed_all(units.push(unit)) == (product << 29) | (product >> 35)
        }),
        ({
            let length = (((units.len() as u64) * 0x9E37_79B1_85EB_CA87u64)
                % 0x1_0000_0000_0000_0000) as u64;
            let measured = mixed_all(units) ^ length;
            let folded = measured ^ (measured >> 33);
            let spread = ((folded * 0x9E37_79B1_85EB_CA87u64) % 0x1_0000_0000_0000_0000) as u64;
            hash_of(units) == ((spread ^ (spread >> 29)) % 268435456) as u32
        }),
        hash_of(units) < 268435456,
{
    reveal(hash_of);
    assert(units.push(unit).drop_last() =~= units);
}

/// Bytes widen to code units with the same numbers, and a lone surrogate is reported by its number and
/// its place.
pub proof fn law_bytes_widen_to_code_units(bytes: Seq<u8>, i: int, lone: LoneSurrogate)
    requires
        0 <= i < bytes.len(),
    ensures
        widened(bytes).len() == bytes.len(),
        widened(bytes)[i] as int == bytes[i] as int,
        lone.text() == "lone surrogate 0x"@ + four_digits(lone.unit) + " at code unit "@ + decimal(
            lone.index as nat,
        ),
{
}

} // verus!
