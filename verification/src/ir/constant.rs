//! The per function constant pool.
//!
//! The pass that builds this pool cannot reach the atom table, so the pool holds plain strings.
//! Interning happens once when a realm loads the blueprint, which is the first moment there is a
//! heap to intern into. The pool is the list of things to intern and the index into it is the
//! operand.

use rustc_hash::FxHashMap;
use vstd::prelude::*;

verus! {

/// The hasher factory of `rustc_hash`, which the maps of a pool carry as a type parameter.
#[verifier::external_type_specification]
#[verifier::external_body]
pub struct ExFxBuildHasher(rustc_hash::FxBuildHasher);

/// What the number index of a pool holds.
pub uninterp spec fn numbers_in(map: FxHashMap<u64, ConstIndex>) -> Map<u64, ConstIndex>;

/// What the string index of a pool holds.
pub uninterp spec fn strings_in(map: FxHashMap<String, ConstIndex>) -> Map<Seq<char>, ConstIndex>;

/// `FxHashMap::default` over number keys makes a map that holds nothing.
#[verifier::external_body]
fn new_number_index() -> (made: FxHashMap<u64, ConstIndex>)
    ensures
        (numbers_in(made) == Map::<u64, ConstIndex>::empty()),
{
    FxHashMap::default()
}

/// `HashMap::get` on an `FxHashMap` gives the value stored under the key, if there is one.
#[verifier::external_body]
fn find_number(map: &FxHashMap<u64, ConstIndex>, key: u64) -> (found: Option<ConstIndex>)
    ensures
        found == (if numbers_in(*map).contains_key(key) {
            Some(numbers_in(*map)[key])
        } else {
            None
        }),
{
    map.get(&key).copied()
}

/// `HashMap::insert` on an `FxHashMap` stores the value under the key and leaves every other key as
/// it was.
#[verifier::external_body]
fn index_number(map: &mut FxHashMap<u64, ConstIndex>, key: u64, index: ConstIndex)
    ensures
        numbers_in(*final(map)) == numbers_in(*old(map)).insert(key, index),
{
    map.insert(key, index);
}

/// `FxHashMap::default` over string keys makes a map that holds nothing.
#[verifier::external_body]
fn new_string_index() -> (made: FxHashMap<String, ConstIndex>)
    ensures
        (strings_in(made) == Map::<Seq<char>, ConstIndex>::empty()),
{
    FxHashMap::default()
}

/// `HashMap::get` on an `FxHashMap` gives the value stored under a key with this text, if there is
/// one.
#[verifier::external_body]
fn find_string(map: &FxHashMap<String, ConstIndex>, key: &str) -> (found: Option<ConstIndex>)
    ensures
        found == (if strings_in(*map).contains_key(key@) {
            Some(strings_in(*map)[key@])
        } else {
            None
        }),
{
    map.get(key).copied()
}

/// `HashMap::insert` on an `FxHashMap` stores the value under the text and leaves every other text as
/// it was.
#[verifier::external_body]
fn index_string(map: &mut FxHashMap<String, ConstIndex>, key: String, index: ConstIndex)
    ensures
        strings_in(*final(map)) == strings_in(*old(map)).insert(key@, index),
{
    map.insert(key, index);
}

/// What the standard library's `{:?}` writes for a string: the text in double quotes with whatever
/// would be ambiguous escaped.
pub uninterp spec fn quoted(text: Seq<char>) -> Seq<char>;

/// `format!` with `{:?}` writes a string quoted and escaped, as a function of its characters.
#[verifier::external_body]
fn quote(text: &str) -> (out: String)
    ensures
        out@ == quoted(text@),
{
    format!("{text:?}")
}

/// An index into a blueprint's constant pool.
#[derive(Clone, Copy, Debug, PartialEq, Eq, Hash, PartialOrd, Ord, Structural)]
pub struct ConstIndex(pub u32);

/// A value known at lowering time.
///
/// Booleans, `null` and `undefined` are not here because each of them has its own opcode, which is
/// smaller than a pool entry plus a load.
#[derive(Clone, Debug)]
pub enum Constant {
    /// A number, already converted from source text to the double it denotes.
    Number {
        /// The bit pattern of the double.
        bits: u64,
        /// How the double is written, which only a listing reads.
        spelling: String,
    },
    /// A string, with escapes resolved. Interned into an atom when a realm loads the blueprint.
    String(String),
}

/// A constant as a mathematical value.
pub enum ConstantView {
    /// A number by its bit pattern, and how it is written.
    Number(u64, Seq<char>),
    /// A string by its characters.
    String(Seq<char>),
}

impl View for Constant {
    type V = ConstantView;

    open spec fn view(&self) -> ConstantView {
        match self {
            Constant::Number { bits, spelling } => ConstantView::Number(*bits, spelling@),
            Constant::String(text) => ConstantView::String(text@),
        }
    }
}

impl ConstantView {
    /// How a listing writes the constant. A string is quoted so that a listing is unambiguous.
    pub open spec fn text(self) -> Seq<char> {
        match self {
            ConstantView::Number(_, spelling) => spelling,
            ConstantView::String(text) => quoted(text),
        }
    }

    /// Whether this is the number with this bit pattern.
    pub open spec fn is_number(self, bits: u64) -> bool {
        self is Number && self->Number_0 == bits
    }
}

impl Constant {
    /// The constant as a listing writes it.
    pub fn to_string(&self) -> (out: String)
        ensures
            out@ == self@.text(),
    {
        match self {
            Constant::Number { spelling, .. } => spelling.clone(),
            Constant::String(text) => quote(text.as_str()),
        }
    }
}

/// The constants one function needs, each stored once.
///
/// Deduplication is worth doing here rather than later because the same string literal appearing
/// twice in a function is normal, and every duplicate removed is one fewer atom to intern at load
/// time.
#[derive(Clone, Debug)]
pub struct ConstantPool {
    values: Vec<Constant>,
    /// Numbers are keyed by bit pattern rather than by value. That makes `0.0` and `-0.0` different
    /// entries, which is correct, because `1 / -0` is not `1 / 0`.
    numbers: FxHashMap<u64, ConstIndex>,
    strings: FxHashMap<String, ConstIndex>,
}

impl View for ConstantPool {
    type V = Seq<ConstantView>;

    /// The constants in pool order.
    closed spec fn view(&self) -> Seq<ConstantView> {
        Seq::new(self.values@.len(), |i: int| self.values@[i]@)
    }
}

/// Whether no constant is in the list twice.
pub open spec fn each_once(values: Seq<ConstantView>) -> bool {
    &&& forall|i: int, j: int, bits: u64|
        0 <= i < values.len() && 0 <= j < values.len() && #[trigger] values[i].is_number(bits)
            && #[trigger] values[j].is_number(bits) ==> i == j
    &&& forall|i: int, j: int|
        0 <= i < values.len() && 0 <= j < values.len() && values[i] is String
            && #[trigger] values[i] == #[trigger] values[j] ==> i == j
}

/// The list after a number is asked for: the list itself when the bit pattern is in it, and one
/// longer when it is not.
pub open spec fn with_number(values: Seq<ConstantView>, bits: u64, spelling: Seq<char>) -> Seq<
    ConstantView,
> {
    if exists|i: int| 0 <= i < values.len() && #[trigger] values[i].is_number(bits) {
        values
    } else {
        values.push(ConstantView::Number(bits, spelling))
    }
}

/// The list after a string is asked for.
pub open spec fn with_string(values: Seq<ConstantView>, text: Seq<char>) -> Seq<ConstantView> {
    if values.contains(ConstantView::String(text)) {
        values
    } else {
        values.push(ConstantView::String(text))
    }
}

impl Default for ConstantPool {
    /// A pool with no constants.
    fn default() -> (pool: Self)
        ensures
            pool.wf(),
            pool@ == Seq::<ConstantView>::empty(),
    {
        let pool = ConstantPool {
            values: Vec::new(),
            numbers: new_number_index(),
            strings: new_string_index(),
        };
        assert(pool@ =~= Seq::<ConstantView>::empty());
        pool
    }
}

impl ConstantPool {
    /// The two indexes say where each constant is and nothing else, and a pool fits in `u32`.
    pub closed spec fn wf(&self) -> bool {
        &&& self@.len() <= u32::MAX + 1
        &&& forall|bits: u64| #[trigger]
            numbers_in(self.numbers).contains_key(bits) ==> {
                let at = numbers_in(self.numbers)[bits].0 as int;
                at < self@.len() && self@[at].is_number(bits)
            }
        &&& forall|i: int, bits: u64|
            0 <= i < self@.len() && #[trigger] self@[i].is_number(bits) ==> numbers_in(
                self.numbers,
            ).contains_key(bits) && numbers_in(self.numbers)[bits].0 == i
        &&& forall|text: Seq<char>| #[trigger]
            strings_in(self.strings).contains_key(text) ==> {
                let at = strings_in(self.strings)[text].0 as int;
                at < self@.len() && self@[at] == ConstantView::String(text)
            }
        &&& forall|i: int|
            0 <= i < self@.len() && (#[trigger] self@[i]) is String ==> strings_in(
                self.strings,
            ).contains_key(self@[i]->String_0) && strings_in(self.strings)[self@[i]->String_0].0 == i
    }

    /// Add a number, given by its bit pattern and how it is written, or return the index it already
    /// has. A pool has room for `u32` indexes.
    pub fn number(&mut self, bits: u64, spelling: &str) -> (index: ConstIndex)
        requires
            old(self).wf(),
            with_number(old(self)@, bits, spelling@).len() <= u32::MAX + 1,
        ensures
            final(self).wf(),
            final(self)@ == with_number(old(self)@, bits, spelling@),
            index.0 < final(self)@.len(),
            final(self)@[index.0 as int].is_number(bits),
            each_once(final(self)@),
    {
        if let Some(index) = find_number(&self.numbers, bits) {
            assert(self@[index.0 as int].is_number(bits));
            return index;
        }
        let ghost before = *self;
        let index = self.push(Constant::Number { bits, spelling: spelling.to_owned() });
        index_number(&mut self.numbers, bits, index);
        proof {
            assert(self@ =~= before@.push(ConstantView::Number(bits, spelling@)));
            assert forall|i: int, other: u64|
                0 <= i < self@.len() && #[trigger] self@[i].is_number(other) implies numbers_in(
                self.numbers,
            ).contains_key(other) && numbers_in(self.numbers)[other].0 == i by {
                if i < before@.len() {
                    assert(before@[i].is_number(other));
                }
            }
            assert forall|i: int| 0 <= i < self@.len() && (#[trigger] self@[i]) is String implies
                strings_in(self.strings).contains_key(self@[i]->String_0) && strings_in(
                self.strings,
            )[self@[i]->String_0].0 == i by {
                assert(before@[i] is String);
            }
        }
        index
    }

    /// Add a string, or return the index it already has. A pool has room for `u32` indexes.
    pub fn string(&mut self, value: &str) -> (index: ConstIndex)
        requires
            old(self).wf(),
            with_string(old(self)@, value@).len() <= u32::MAX + 1,
        ensures
            final(self).wf(),
            final(self)@ == with_string(old(self)@, value@),
            index.0 < final(self)@.len(),
            final(self)@[index.0 as int] == ConstantView::String(value@),
            each_once(final(self)@),
    {
        if let Some(index) = find_string(&self.strings, value) {
            assert(self@[index.0 as int] == ConstantView::String(value@));
            return index;
        }
        let ghost before = *self;
        proof {
            if before@.contains(ConstantView::String(value@)) {
                let i = choose|i: int|
                    0 <= i < before@.len() && before@[i] == ConstantView::String(value@);
                assert(before@[i] is String);
            }
        }
        let index = self.push(Constant::String(value.to_owned()));
        index_string(&mut self.strings, value.to_owned(), index);
        proof {
            assert(self@ =~= before@.push(ConstantView::String(value@)));
            assert forall|i: int, other: u64|
                0 <= i < self@.len() && #[trigger] self@[i].is_number(other) implies numbers_in(
                self.numbers,
            ).contains_key(other) && numbers_in(self.numbers)[other].0 == i by {
                assert(before@[i].is_number(other));
            }
            assert forall|i: int| 0 <= i < self@.len() && (#[trigger] self@[i]) is String implies
                strings_in(self.strings).contains_key(self@[i]->String_0) && strings_in(
                self.strings,
            )[self@[i]->String_0].0 == i by {
                if i < before@.len() {
                    assert(before@[i] is String);
                }
            }
        }
        index
    }

    /// Read a constant back, for the interpreter and for a disassembly.
    pub fn get(&self, index: ConstIndex) -> (constant: Option<&Constant>)
        ensures
            constant is Some <==> index.0 < self@.len(),
            constant matches Some(found) ==> found@ == self@[index.0 as int],
    {
        if (index.0 as usize) < self.values.len() {
            Some(&self.values[index.0 as usize])
        } else {
            None
        }
    }

    /// Every constant in pool order, which is the order a realm interns them in.
    pub fn values(&self) -> (values: &[Constant])
        ensures
            values@.len() == self@.len(),
            forall|i: int| 0 <= i < values@.len() ==> (#[trigger] values@[i])@ == self@[i],
    {
        self.values.as_slice()
    }

    /// How many constants the pool holds.
    pub fn len(&self) -> (count: usize)
        ensures
            count == self@.len(),
    {
        self.values.len()
    }

    /// Whether the function needs no constants at all.
    pub fn is_empty(&self) -> (empty: bool)
        ensures
            empty == (self@.len() == 0),
    {
        self.values.len() == 0
    }

    fn push(&mut self, constant: Constant) -> (index: ConstIndex)
        requires
            old(self).values@.len() <= u32::MAX,
        ensures
            final(self).values@ == old(self).values@.push(constant),
            final(self).numbers == old(self).numbers,
            final(self).strings == old(self).strings,
            index.0 == old(self).values@.len(),
    {
        let index = ConstIndex(self.values.len() as u32);
        self.values.push(constant);
        index
    }
}

/// Asking for a number twice gives one entry: the second time changes nothing.
pub proof fn law_the_same_number_twice_is_one_entry(
    values: Seq<ConstantView>,
    bits: u64,
    spelling: Seq<char>,
    again: Seq<char>,
)
    ensures
        with_number(with_number(values, bits, spelling), bits, again) == with_number(
            values,
            bits,
            spelling,
        ),
{
    let after = with_number(values, bits, spelling);
    if !(exists|i: int| 0 <= i < values.len() && #[trigger] values[i].is_number(bits)) {
        assert(after[after.len() - 1].is_number(bits));
    }
}

/// Asking for a string twice gives one entry.
pub proof fn law_the_same_string_twice_is_one_entry(values: Seq<ConstantView>, text: Seq<char>)
    ensures
        with_string(with_string(values, text), text) == with_string(values, text),
{
    let after = with_string(values, text);
    if !values.contains(ConstantView::String(text)) {
        assert(after[after.len() - 1] == ConstantView::String(text));
    }
}

/// An index stays good: nothing that is asked for later moves or changes a constant that is there.
pub proof fn law_an_index_stays_good(
    values: Seq<ConstantView>,
    index: int,
    bits: u64,
    spelling: Seq<char>,
    text: Seq<char>,
)
    requires
        0 <= index < values.len(),
    ensures
        with_number(values, bits, spelling)[index] == values[index],
        with_string(values, text)[index] == values[index],
{
}

/// Numbers are told apart by their bit patterns, strings by their characters, and the one never by
/// the other. What is asked for is there afterwards, at the end if it was not there before.
pub proof fn law_constants_are_told_apart_by_bits_and_by_text(
    values: Seq<ConstantView>,
    bits: u64,
    spelling: Seq<char>,
    text: Seq<char>,
    i: int,
)
    requires
        0 <= i < values.len(),
    ensures
        values[i].is_number(bits) <==> (values[i] matches ConstantView::Number(held, _) && held
            == bits),
        (forall|k: int|
            0 <= k < values.len() ==> !(#[trigger] values[k] matches ConstantView::Number(held, _)
                && held == bits)) ==> with_number(values, bits, spelling) == values.push(
            ConstantView::Number(bits, spelling),
        ),
        values[i] matches ConstantView::Number(held, _) && held == bits ==> with_number(
            values,
            bits,
            spelling,
        ) == values,
        (forall|k: int| 0 <= k < values.len() ==> #[trigger] values[k] != ConstantView::String(text))
            ==> with_string(values, text) == values.push(ConstantView::String(text)),
        values[i] == ConstantView::String(text) ==> with_string(values, text) == values,
        values[i] matches ConstantView::Number(_, written) ==> values[i].text() == written,
        values[i] matches ConstantView::String(held) ==> values[i].text() == quoted(held),
{
    if values[i] matches ConstantView::Number(held, _) && held == bits {
        assert(values[i].is_number(bits));
    }
    if exists|k: int| 0 <= k < values.len() && #[trigger] values[k].is_number(bits) {
        let k = choose|k: int| 0 <= k < values.len() && #[trigger] values[k].is_number(bits);
        assert(values[k] matches ConstantView::Number(held, _) && held == bits);
    }
    if values.contains(ConstantView::String(text)) {
        let k = choose|k: int| 0 <= k < values.len() && values[k] == ConstantView::String(text);
        assert(values[k] == ConstantView::String(text));
    }
}

} // verus!
