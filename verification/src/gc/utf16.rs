//! UTF-16 code units and the text they stand for.

use vstd::prelude::*;

verus! {

/// `char::from_u32` gives the character with this number, for every number that is one: at most
/// 10FFFF and not a surrogate.
pub assume_specification[ char::from_u32 ](i: u32) -> (found: Option<char>)
    ensures
        found is Some <==> (i <= 0xD7FF || 0xE000 <= i <= 0x10FFFF),
        found matches Some(c) ==> c as u32 == i,
;

/// Whether a code unit is the first half of a pair.
pub open spec fn is_high(unit: u16) -> bool {
    0xD800 <= unit <= 0xDBFF
}

/// Whether a code unit is the second half of a pair.
pub open spec fn is_low(unit: u16) -> bool {
    0xDC00 <= unit <= 0xDFFF
}

/// The code units of one character: one, or a pair above FFFF.
pub open spec fn units_of(c: char) -> Seq<u16> {
    if (c as int) < 0x10000 {
        seq![c as int as u16]
    } else {
        seq![
            (0xD800 + (c as int - 0x10000) / 0x400) as u16,
            (0xDC00 + (c as int - 0x10000) % 0x400) as u16,
        ]
    }
}

/// The code units of some text.
pub open spec fn utf16(text: Seq<char>) -> Seq<u16>
    decreases text.len(),
{
    if text.len() == 0 {
        Seq::empty()
    } else {
        utf16(text.drop_last()) + units_of(text.last())
    }
}

/// Whether a pair starts at `at`.
pub open spec fn pair_at(units: Seq<u16>, at: int) -> bool {
    at + 1 < units.len() && is_high(units[at]) && is_low(units[at + 1])
}

/// Whether the code unit at `at` is half of a pair without the other half.
pub open spec fn lone_at(units: Seq<u16>, at: int) -> bool {
    (is_high(units[at]) || is_low(units[at])) && !pair_at(units, at)
}

/// How many code units are read at `at`.
pub open spec fn width_at(units: Seq<u16>, at: int) -> int {
    if pair_at(units, at) {
        2
    } else {
        1
    }
}

/// The character read at `at`, where a lone surrogate reads as the replacement character.
pub open spec fn char_at(units: Seq<u16>, at: int) -> char {
    if pair_at(units, at) {
        (0x10000 + (units[at] - 0xD800) * 0x400 + (units[at + 1] - 0xDC00)) as char
    } else if lone_at(units, at) {
        '\u{FFFD}'
    } else {
        units[at] as int as char
    }
}

/// The text read from `from` on, with lone surrogates replaced.
pub open spec fn text_from(units: Seq<u16>, from: int) -> Seq<char>
    decreases units.len() - from,
{
    if from < 0 || from >= units.len() {
        Seq::empty()
    } else {
        seq![char_at(units, from)] + text_from(units, from + width_at(units, from))
    }
}

/// Where the first lone surrogate met in reading from `from` on is, if one is met.
pub open spec fn first_lone(units: Seq<u16>, from: int) -> Option<int>
    decreases units.len() - from,
{
    if from < 0 || from >= units.len() {
        None
    } else if lone_at(units, from) {
        Some(from)
    } else {
        first_lone(units, from + width_at(units, from))
    }
}

/// A character is a number up to 10FFFF that is not a surrogate.
pub proof fn lemma_char_range(c: char)
    ensures
        0 <= c as int <= 0x10FFFF,
        !(0xD800 <= c as int <= 0xDFFF),
        c as u32 as int == c as int,
{
}

/// Two characters with the same number are the same character.
proof fn lemma_char_number(c: char, number: int)
    requires
        c as int == number,
    ensures
        number as char == c,
{
}

/// Encode text as code units.
pub(crate) fn encode(text: &str) -> (units: Vec<u16>)
    ensures
        units@ == utf16(text@),
{
    let mut units: Vec<u16> = Vec::new();
    assert(text@.take(0) =~= Seq::<char>::empty());
    assert(units@ =~= utf16(text@.take(0)));
    for c in it: text.chars()
        invariant
            it.seq() == text@,
            units@ == utf16(text@.take(it.index() as int)),
    {
        proof {
            lemma_char_range(c);
        }
        let code: u32 = c as u32;
        proof {
            let next = text@.take(it.index() as int + 1);
            assert(next.drop_last() =~= text@.take(it.index() as int));
            assert(next.last() == c);
        }
        let ghost before = units@;
        if code < 0x10000 {
            units.push(code as u16);
        } else {
            units.push((0xD800 + (code - 0x10000) / 0x400) as u16);
            units.push((0xDC00 + (code - 0x10000) % 0x400) as u16);
        }
        assert(units@ =~= before + units_of(c));
    }
    assert(text@.take(text@.len() as int) =~= text@);
    units
}

/// Decode code units into text, replacing lone surrogates.
pub(crate) fn decode_lossy(units: &Vec<u16>) -> (text: String)
    ensures
        text@ == text_from(units@, 0),
{
    let mut text = String::new();
    let mut at: usize = 0;
    assert(text@ + text_from(units@, 0) =~= text_from(units@, 0));
    while at < units.len()
        invariant
            at <= units@.len(),
            text@ + text_from(units@, at as int) == text_from(units@, 0),
        decreases units@.len() - at,
    {
        let ghost before = text@;
        let (c, width) = decode_at(units, at);
        text.push(c);
        assert(text@ + text_from(units@, at + width) =~= before + text_from(units@, at as int));
        at = at + width;
    }
    assert(text@ =~= text_from(units@, 0));
    text
}

/// Read one character.
fn decode_at(units: &Vec<u16>, at: usize) -> (read: (char, usize))
    requires
        at < units@.len(),
    ensures
        read.0 == char_at(units@, at as int),
        read.1 == width_at(units@, at as int),
        at + read.1 <= units@.len(),
{
    let unit: u16 = units[at];
    if 0xD800 <= unit && unit <= 0xDFFF {
        if unit <= 0xDBFF && at < units.len() - 1 {
            let next: u16 = units[at + 1];
            if 0xDC00 <= next && next <= 0xDFFF {
                let code: u32 = 0x10000 + (unit as u32 - 0xD800) * 0x400 + (next as u32 - 0xDC00);
                return match char::from_u32(code) {
                    Some(c) => {
                        proof {
                            lemma_char_range(c);
                            lemma_char_number(c, code as int);
                        }
                        (c, 2)
                    },
                    None => ('\u{FFFD}', 2),
                };
            }
        }
        return ('\u{FFFD}', 1);
    }
    match char::from_u32(unit as u32) {
        Some(c) => {
            proof {
                lemma_char_range(c);
                lemma_char_number(c, unit as int);
            }
            (c, 1)
        },
        None => ('\u{FFFD}', 1),
    }
}

/// Where the first lone surrogate is.
pub(crate) fn find_lone(units: &Vec<u16>) -> (found: Option<usize>)
    ensures
        found is Some <==> first_lone(units@, 0) is Some,
        found matches Some(at) ==> first_lone(units@, 0) == Some(at as int) && at < units@.len()
            && lone_at(units@, at as int),
{
    let mut at: usize = 0;
    while at < units.len()
        invariant
            at <= units@.len(),
            first_lone(units@, 0) == first_lone(units@, at as int),
        decreases units@.len() - at,
    {
        let unit: u16 = units[at];
        if 0xD800 <= unit && unit <= 0xDFFF {
            let paired: bool = unit <= 0xDBFF && at < units.len() - 1 && 0xDC00 <= units[at + 1]
                && units[at + 1] <= 0xDFFF;
            if !paired {
                return Some(at);
            }
            at = at + 2;
        } else {
            at = at + 1;
        }
    }
    None
}

/// Reading code units that start with those of some text gives that text and then the rest.
proof fn lemma_reading_text(text: Seq<char>, tail: Seq<u16>)
    requires
        tail.len() > 0 ==> !is_low(tail[0]),
    ensures
        text_from(utf16(text) + tail, 0) == text + text_from(tail, 0),
        first_lone(utf16(text) + tail, 0) is Some <==> first_lone(tail, 0) is Some,
    decreases text.len(),
{
    if text.len() == 0 {
        assert(utf16(text) + tail =~= tail);
        assert(text + text_from(tail, 0) =~= text_from(tail, 0));
    } else {
        let front = text.drop_last();
        let c = text.last();
        let rest = units_of(c) + tail;
        lemma_char_range(c);
        lemma_char_number(c, c as int);
        assert(utf16(text) + tail =~= utf16(front) + rest);
        lemma_reading_text(front, rest);
        let width = units_of(c).len() as int;
        lemma_reading_later(rest, tail, width);
        assert(text_from(rest, 0) == seq![char_at(rest, 0)] + text_from(
            rest,
            width_at(rest, 0),
        ));
        assert(width_at(rest, 0) == width);
        assert(char_at(rest, 0) == c);
        assert(!lone_at(rest, 0));
        assert(text + text_from(tail, 0) =~= front + text_from(rest, 0));
    }
}

/// Reading from the middle is reading what is left.
proof fn lemma_reading_later(whole: Seq<u16>, tail: Seq<u16>, skipped: int)
    requires
        0 <= skipped,
        whole.len() == skipped + tail.len(),
        forall|i: int| 0 <= i < tail.len() ==> tail[i] == whole[skipped + i],
    ensures
        text_from(whole, skipped) == text_from(tail, 0),
        first_lone(whole, skipped) is Some <==> first_lone(tail, 0) is Some,
{
    lemma_reading_later_from(whole, tail, skipped, 0);
}

proof fn lemma_reading_later_from(whole: Seq<u16>, tail: Seq<u16>, skipped: int, at: int)
    requires
        0 <= skipped,
        0 <= at,
        whole.len() == skipped + tail.len(),
        forall|i: int| 0 <= i < tail.len() ==> tail[i] == whole[skipped + i],
    ensures
        text_from(whole, skipped + at) == text_from(tail, at),
        first_lone(whole, skipped + at) is Some <==> first_lone(tail, at) is Some,
    decreases tail.len() - at,
{
    if at < tail.len() {
        assert(tail[at] == whole[skipped + at]);
        if at + 1 < tail.len() {
            assert(tail[at + 1] == whole[skipped + (at + 1)]);
        }
        lemma_reading_later_from(whole, tail, skipped, at + width_at(tail, at));
    }
}

/// Text survives a trip through code units: reading back what was encoded gives the text, and meets
/// no lone surrogate on the way.
pub proof fn law_text_survives_encoding(text: Seq<char>)
    ensures
        text_from(utf16(text), 0) == text,
        first_lone(utf16(text), 0) is None,
{
    let nothing = Seq::<u16>::empty();
    lemma_reading_text(text, nothing);
    assert(utf16(text) + nothing =~= utf16(text));
    assert(text + text_from(nothing, 0) =~= text);
}

/// The code units of two texts one after the other.
proof fn lemma_units_of_joined_text(left: Seq<char>, right: Seq<char>)
    ensures
        utf16(left + right) == utf16(left) + utf16(right),
    decreases right.len(),
{
    if right.len() == 0 {
        assert(left + right =~= left);
        assert(utf16(left) + utf16(right) =~= utf16(left));
    } else {
        assert((left + right).drop_last() =~= left + right.drop_last());
        lemma_units_of_joined_text(left, right.drop_last());
        assert(utf16(left + right) =~= utf16(left) + utf16(right));
    }
}

/// The code units of a single character.
proof fn lemma_units_of_one(c: char)
    ensures
        utf16(seq![c]) == units_of(c),
{
    let one = seq![c];
    assert(one.drop_last() =~= Seq::<char>::empty());
    assert(utf16(one) == utf16(one.drop_last()) + units_of(c));
    assert(utf16(one.drop_last()) =~= Seq::<u16>::empty());
    assert(utf16(one) =~= units_of(c));
}

proof fn lemma_reading_back_from(units: Seq<u16>, from: int)
    requires
        0 <= from <= units.len(),
        first_lone(units, from) is None,
    ensures
        utf16(text_from(units, from)) == units.subrange(from, units.len() as int),
    decreases units.len() - from,
{
    if from < units.len() {
        let width = width_at(units, from);
        let c = char_at(units, from);
        lemma_reading_back_from(units, from + width);
        lemma_units_of_joined_text(seq![c], text_from(units, from + width));
        lemma_units_of_one(c);
        lemma_char_range(c);
        assert(units_of(c) =~= units.subrange(from, from + width));
        assert(units.subrange(from, units.len() as int) =~= units.subrange(from, from + width)
            + units.subrange(from + width, units.len() as int));
    } else {
        assert(units.subrange(from, units.len() as int) =~= Seq::<u16>::empty());
    }
}

/// Code units without a lone surrogate survive a trip through text: encoding what was read gives them
/// back.
pub proof fn law_units_survive_decoding(units: Seq<u16>)
    requires
        first_lone(units, 0) is None,
    ensures
        utf16(text_from(units, 0)) == units,
{
    lemma_reading_back_from(units, 0);
    assert(units.subrange(0, units.len() as int) =~= units);
}

/// Two texts with the same code units are the same text.
pub proof fn law_encoding_is_one_to_one(left: Seq<char>, right: Seq<char>)
    ensures
        utf16(left) == utf16(right) <==> left == right,
{
    law_text_survives_encoding(left);
    law_text_survives_encoding(right);
}

/// A character below 10000 is one code unit with the same number, so text whose characters all fit in
/// a byte has as many code units as characters.
pub proof fn lemma_byte_text_is_its_own_units(text: Seq<char>)
    ensures
        (forall|i: int| 0 <= i < text.len() ==> (#[trigger] text[i]) as int <= 0xFF) <==> (forall|i: int|
            0 <= i < utf16(text).len() ==> #[trigger] utf16(text)[i] <= 0xFF),
        (forall|i: int| 0 <= i < text.len() ==> (#[trigger] text[i]) as int <= 0xFF) ==> utf16(
            text,
        ).len() == text.len() && forall|i: int|
            0 <= i < text.len() ==> #[trigger] utf16(text)[i] == text[i] as int,
    decreases text.len(),
{
    if text.len() > 0 {
        let front = text.drop_last();
        lemma_byte_text_is_its_own_units(front);
        let units = utf16(text);
        let before = utf16(front);
        let last = units_of(text.last());
        assert(units == before + last);
        assert(text.last() == text[text.len() - 1]);
        lemma_char_range(text.last());
        if forall|i: int| 0 <= i < text.len() ==> (#[trigger] text[i]) as int <= 0xFF {
            assert forall|i: int| 0 <= i < front.len() implies (#[trigger] front[i]) as int
                <= 0xFF by {
                assert(front[i] == text[i]);
            }
            assert forall|i: int| 0 <= i < text.len() implies #[trigger] units[i]
                == text[i] as int by {
                if i < front.len() {
                    assert(units[i] == before[i]);
                    assert(front[i] == text[i]);
                }
            }
        }
        if forall|i: int| 0 <= i < units.len() ==> #[trigger] units[i] <= 0xFF {
            assert forall|i: int| 0 <= i < before.len() implies #[trigger] before[i] <= 0xFF by {
                assert(units[i] == before[i]);
            }
            assert(units[before.len() as int] == last[0]);
            assert forall|i: int| 0 <= i < text.len() implies (#[trigger] text[i]) as int
                <= 0xFF by {
                if i < front.len() {
                    assert(front[i] == text[i]);
                }
            }
        }
    }
}

/// A character up to FFFF is one code unit with its number. One above is a high and a low half, each
/// with ten of the bits that are left once 10000 is taken off. Text is the code units of its
/// characters in their order.
pub proof fn law_a_character_is_one_code_unit_or_a_pair(text: Seq<char>, c: char)
    ensures
        c as int <= 0xFFFF ==> units_of(c).len() == 1 && units_of(c)[0] == c as int,
        c as int > 0xFFFF ==> {
            &&& units_of(c).len() == 2
            &&& 0xD800 <= units_of(c)[0] <= 0xDBFF
            &&& 0xDC00 <= units_of(c)[1] <= 0xDFFF
            &&& c as int == 0x10000 + (units_of(c)[0] - 0xD800) * 1024 + (units_of(c)[1] - 0xDC00)
        },
        utf16(text.push(c)) == utf16(text) + units_of(c),
        utf16(Seq::<char>::empty()) == Seq::<u16>::empty(),
{
    lemma_char_range(c);
    assert(text.push(c).drop_last() =~= text);
}

/// Reading code units: one outside D800 to DFFF reads as the character with its number, a high half
/// with a low half behind it reads as the one character the two make, and any other half reads as the
/// replacement character. The first of those is where a lone surrogate is met.
pub proof fn law_how_code_units_read(units: Seq<u16>, at: int)
    requires
        0 <= at < units.len(),
    ensures
        ({
            let unit = units[at];
            let high = 0xD800 <= unit <= 0xDBFF;
            let low = 0xDC00 <= unit <= 0xDFFF;
            let paired = high && at + 1 < units.len() && 0xDC00 <= units[at + 1] <= 0xDFFF;
            &&& !high && !low ==> text_from(units, at) == seq![unit as int as char] + text_from(
                units,
                at + 1,
            ) && first_lone(units, at) == first_lone(units, at + 1)
            &&& paired ==> text_from(units, at) == seq![
                (0x10000 + (unit - 0xD800) * 1024 + (units[at + 1] - 0xDC00)) as char,
            ] + text_from(units, at + 2) && first_lone(units, at) == first_lone(units, at + 2)
            &&& (high || low) && !paired ==> text_from(units, at) == seq!['\u{FFFD}'] + text_from(
                units,
                at + 1,
            ) && first_lone(units, at) == Some(at)
        }),
        text_from(units, units.len() as int) == Seq::<char>::empty(),
        first_lone(units, units.len() as int) is None,
{
}

} // verus!
