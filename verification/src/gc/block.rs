//! What an allocation is to everything above the allocator: a kind and a run of bytes.
//!
//! A heap is a map from cage offsets to blocks. Allocating adds a block of zeroes, writing a field
//! changes the bytes of one block, and no operation on one block can be seen in another. Everything
//! that lays objects out in memory is stated over this map.

use vstd::prelude::*;

use crate::gc::bump::ObjectKind;

verus! {

/// One allocation.
pub struct Block {
    /// What it was allocated for.
    pub kind: ObjectKind,
    /// What it holds.
    pub bytes: Seq<u8>,
}

/// The blocks of a heap by the cage offset each starts at.
pub type Blocks = Map<int, Block>;

/// The two byte word at `at`, low byte first.
#[verifier::opaque]
pub open spec fn u16_at(bytes: Seq<u8>, at: int) -> u16 {
    (bytes[at] + 256 * bytes[at + 1]) as u16
}

/// The four byte word at `at`, low byte first.
#[verifier::opaque]
pub open spec fn u32_at(bytes: Seq<u8>, at: int) -> u32 {
    (bytes[at] + 256 * bytes[at + 1] + 65536 * bytes[at + 2] + 16777216 * bytes[at + 3]) as u32
}

/// The eight byte word at `at`, low half first.
#[verifier::opaque]
pub open spec fn u64_at(bytes: Seq<u8>, at: int) -> u64 {
    (u32_at(bytes, at) + 4294967296 * u32_at(bytes, at + 4)) as u64
}

/// The bytes with a two byte word written at `at`.
#[verifier::opaque]
pub open spec fn with_u16(bytes: Seq<u8>, at: int, value: u16) -> Seq<u8> {
    bytes.update(at, (value % 256) as u8).update(at + 1, (value / 256) as u8)
}

/// The bytes with a four byte word written at `at`.
#[verifier::opaque]
pub open spec fn with_u32(bytes: Seq<u8>, at: int, value: u32) -> Seq<u8> {
    bytes.update(at, (value % 256) as u8).update(at + 1, (value / 256 % 256) as u8).update(
        at + 2,
        (value / 65536 % 256) as u8,
    ).update(at + 3, (value / 16777216) as u8)
}

/// The bytes with an eight byte word written at `at`.
#[verifier::opaque]
pub open spec fn with_u64(bytes: Seq<u8>, at: int, value: u64) -> Seq<u8> {
    with_u32(
        with_u32(bytes, at, (value % 4294967296) as u32),
        at + 4,
        (value / 4294967296) as u32,
    )
}

/// `count` zero bytes.
pub open spec fn zeroes(count: nat) -> Seq<u8> {
    Seq::new(count, |i: int| 0u8)
}

impl Block {
    /// A block as the allocator hands it out.
    pub open spec fn fresh(kind: ObjectKind, size: nat) -> Block {
        Block { kind, bytes: zeroes(size) }
    }

    /// The block with one byte changed.
    pub open spec fn put_u8(self, at: int, value: u8) -> Block {
        Block { kind: self.kind, bytes: self.bytes.update(at, value) }
    }

    /// The block with a two byte word written.
    pub open spec fn put_u16(self, at: int, value: u16) -> Block {
        Block { kind: self.kind, bytes: with_u16(self.bytes, at, value) }
    }

    /// The block with a four byte word written.
    pub open spec fn put_u32(self, at: int, value: u32) -> Block {
        Block { kind: self.kind, bytes: with_u32(self.bytes, at, value) }
    }

    /// The block with an eight byte word written.
    pub open spec fn put_u64(self, at: int, value: u64) -> Block {
        Block { kind: self.kind, bytes: with_u64(self.bytes, at, value) }
    }
}

/// A two byte word reads back as it was written, and words that do not overlap it are unchanged.
pub broadcast proof fn lemma_u16_after_u16(bytes: Seq<u8>, at: int, value: u16, read: int)
    requires
        0 <= at,
        at + 2 <= bytes.len(),
        0 <= read,
        read + 2 <= bytes.len(),
        read == at || read + 2 <= at || at + 2 <= read,
    ensures
        #[trigger] u16_at(with_u16(bytes, at, value), read) == if read == at {
            value
        } else {
            u16_at(bytes, read)
        },
{
    reveal(u16_at);
    reveal(with_u16);
}

/// A four byte word reads back as it was written, and words that do not overlap it are unchanged.
pub broadcast proof fn lemma_u32_after_u32(bytes: Seq<u8>, at: int, value: u32, read: int)
    requires
        0 <= at,
        at + 4 <= bytes.len(),
        0 <= read,
        read + 4 <= bytes.len(),
        read == at || read + 4 <= at || at + 4 <= read,
    ensures
        #[trigger] u32_at(with_u32(bytes, at, value), read) == if read == at {
            value
        } else {
            u32_at(bytes, read)
        },
{
    reveal(u32_at);
    reveal(with_u32);
}

/// An eight byte word reads back as it was written, and words that do not overlap it are unchanged.
pub broadcast proof fn lemma_u64_after_u64(bytes: Seq<u8>, at: int, value: u64, read: int)
    requires
        0 <= at,
        at + 8 <= bytes.len(),
        0 <= read,
        read + 8 <= bytes.len(),
        read == at || read + 8 <= at || at + 8 <= read,
    ensures
        #[trigger] u64_at(with_u64(bytes, at, value), read) == if read == at {
            value
        } else {
            u64_at(bytes, read)
        },
{
    reveal(u64_at);
    reveal(with_u64);
    let low = (value % 4294967296) as u32;
    let high = (value / 4294967296) as u32;
    let once = with_u32(bytes, at, low);
    lemma_with_u32_len(bytes, at, low);
    if read == at {
        lemma_u32_after_u32(once, at + 4, high, at);
        lemma_u32_after_u32(once, at + 4, high, at + 4);
        lemma_u32_after_u32(bytes, at, low, at);
    } else {
        lemma_u32_after_u32(once, at + 4, high, read);
        lemma_u32_after_u32(once, at + 4, high, read + 4);
        lemma_u32_after_u32(bytes, at, low, read);
        lemma_u32_after_u32(bytes, at, low, read + 4);
    }
}

/// Writing a four byte word leaves an eight byte word that does not overlap it as it was.
pub broadcast proof fn lemma_u64_after_u32(bytes: Seq<u8>, at: int, value: u32, read: int)
    requires
        0 <= at,
        at + 4 <= bytes.len(),
        0 <= read,
        read + 8 <= bytes.len(),
        read + 8 <= at || at + 4 <= read,
    ensures
        #[trigger] u64_at(with_u32(bytes, at, value), read) == u64_at(bytes, read),
{
    reveal(u64_at);
    lemma_u32_after_u32(bytes, at, value, read);
    lemma_u32_after_u32(bytes, at, value, read + 4);
}

/// Writing an eight byte word leaves a four byte word that does not overlap it as it was.
pub broadcast proof fn lemma_u32_after_u64(bytes: Seq<u8>, at: int, value: u64, read: int)
    requires
        0 <= at,
        at + 8 <= bytes.len(),
        0 <= read,
        read + 4 <= bytes.len(),
        read + 4 <= at || at + 8 <= read,
    ensures
        #[trigger] u32_at(with_u64(bytes, at, value), read) == u32_at(bytes, read),
{
    reveal(with_u64);
    let low = (value % 4294967296) as u32;
    let high = (value / 4294967296) as u32;
    lemma_with_u32_len(bytes, at, low);
    lemma_u32_after_u32(with_u32(bytes, at, low), at + 4, high, read);
    lemma_u32_after_u32(bytes, at, low, read);
}

/// Writing words does not change how many bytes there are.
pub broadcast proof fn lemma_with_u32_len(bytes: Seq<u8>, at: int, value: u32)
    requires
        0 <= at,
        at + 4 <= bytes.len(),
    ensures
        (#[trigger] with_u32(bytes, at, value)).len() == bytes.len(),
{
    reveal(with_u32);
}

/// Writing words does not change how many bytes there are.
pub broadcast proof fn lemma_with_u64_len(bytes: Seq<u8>, at: int, value: u64)
    requires
        0 <= at,
        at + 8 <= bytes.len(),
    ensures
        (#[trigger] with_u64(bytes, at, value)).len() == bytes.len(),
{
    reveal(with_u64);
    reveal(with_u32);
}

/// Every word of a fresh block is zero.
pub broadcast proof fn lemma_u32_of_zeroes(count: nat, at: int)
    requires
        0 <= at,
        at + 4 <= count,
    ensures
        #[trigger] u32_at(zeroes(count), at) == 0,
{
    reveal(u32_at);
}

/// Every word of a fresh block is zero.
pub broadcast proof fn lemma_u64_of_zeroes(count: nat, at: int)
    requires
        0 <= at,
        at + 8 <= count,
    ensures
        #[trigger] u64_at(zeroes(count), at) == 0,
{
    reveal(u64_at);
    reveal(u32_at);
}

/// A two byte word is its two bytes.
pub proof fn lemma_u16_is_its_bytes(left: Seq<u8>, right: Seq<u8>, at: int)
    requires
        left[at] == right[at],
        left[at + 1] == right[at + 1],
    ensures
        u16_at(left, at) == u16_at(right, at),
{
    reveal(u16_at);
}

/// A four byte word is its four bytes.
pub proof fn lemma_u32_is_its_bytes(left: Seq<u8>, right: Seq<u8>, at: int)
    requires
        left[at] == right[at],
        left[at + 1] == right[at + 1],
        left[at + 2] == right[at + 2],
        left[at + 3] == right[at + 3],
    ensures
        u32_at(left, at) == u32_at(right, at),
{
    reveal(u32_at);
}

/// Writing a two byte word changes two bytes.
pub proof fn lemma_u16_changes_two_bytes(bytes: Seq<u8>, at: int, value: u16)
    requires
        0 <= at,
        at + 2 <= bytes.len(),
    ensures
        with_u16(bytes, at, value).len() == bytes.len(),
        forall|i: int|
            0 <= i < bytes.len() && !(at <= i < at + 2) ==> #[trigger] with_u16(
                bytes,
                at,
                value,
            )[i] == bytes[i],
{
    reveal(with_u16);
}

/// Writing a four byte word changes four bytes.
pub proof fn lemma_u32_changes_four_bytes(bytes: Seq<u8>, at: int, value: u32)
    requires
        0 <= at,
        at + 4 <= bytes.len(),
    ensures
        with_u32(bytes, at, value).len() == bytes.len(),
        forall|i: int|
            0 <= i < bytes.len() && !(at <= i < at + 4) ==> #[trigger] with_u32(
                bytes,
                at,
                value,
            )[i] == bytes[i],
{
    reveal(with_u32);
}

/// What reading a word gives after writing one.
pub broadcast group group_words {
    lemma_u16_after_u16,
    lemma_u32_after_u32,
    lemma_u64_after_u64,
    lemma_u64_after_u32,
    lemma_u32_after_u64,
    lemma_with_u32_len,
    lemma_with_u64_len,
    lemma_u32_of_zeroes,
    lemma_u64_of_zeroes,
}

} // verus!
