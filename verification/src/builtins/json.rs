//! `JSON`, which today means `JSON.stringify`.
//!
//! # The shape of the output
//!
//! `JSON.stringify(undefined)` is the value `undefined` and not the text `"undefined"`, because
//! `undefined` has no JSON spelling. The same is true of a function. Inside an object the property is
//! dropped, so `{a: 1, b: undefined}` serializes to `{"a":1}`.
//!
//! `NaN` and both infinities serialize as `null`, because JSON has no spelling for them.
//!
//! Text is emitted as itself rather than escaped. Only the quote, the backslash and the C0 control
//! characters are escaped.
//!
//! A circular object is a `TypeError`, "Converting circular structure to JSON".
//!
//! # What is not here
//!
//! Arrays, `toJSON` and the replacer function, the second argument, which is refused rather than
//! ignored, because ignoring it turns a program that asked for a filtered object into a program that
//! gets an unfiltered one and no indication anything happened.

use vstd::prelude::*;

use crate::builtins::convert::{is_open, lemma_not_all_are_open, open_fits, text_of};
use crate::builtins::realm::{
    arg, argument, entry_views, lemma_growing_is_reflexive, lemma_growing_is_transitive,
    lemma_growing_keeps_values, met_an_accessor, outcome, shown, Property, PropertyView, Realm,
    RealmView,
};
use crate::builtins::value::{
    is_finite, is_zero, Attributes, ErrorView, Native, RuntimeError, Value,
};
use crate::gc::utf16::lemma_char_range;
use crate::text::{
    digit, four_digits, hex_digit, push_four_digits, push_spaces, push_truth, spaces, truth,
};

verus! {

/// The largest indent, whether it was asked for in spaces or in text.
pub const MAX_INDENT: u8 = 10;

/// How one character is written inside a JSON string literal.
pub open spec fn escaped(c: char) -> Seq<char> {
    if c == '"' {
        seq!['\\', '"']
    } else if c == '\\' {
        seq!['\\', '\\']
    } else if c == '\u{8}' {
        seq!['\\', 'b']
    } else if c == '\u{c}' {
        seq!['\\', 'f']
    } else if c == '\n' {
        seq!['\\', 'n']
    } else if c == '\r' {
        seq!['\\', 'r']
    } else if c == '\t' {
        seq!['\\', 't']
    } else if (c as int) < 0x20 {
        seq!['\\', 'u'] + four_digits(c as int as u16)
    } else {
        seq![c]
    }
}

/// How text is written inside a JSON string literal.
pub open spec fn escaped_text(text: Seq<char>) -> Seq<char>
    decreases text.len(),
{
    if text.len() == 0 {
        Seq::empty()
    } else {
        escaped_text(text.drop_last()) + escaped(text.last())
    }
}

/// Text as a JSON string literal, quotes included.
pub open spec fn literal(text: Seq<char>) -> Seq<char> {
    seq!['"'] + escaped_text(text) + seq!['"']
}

/// A line break and an indent to `depth`, or nothing at all if there is no indent.
pub open spec fn line_break(indent: Seq<char>, depth: nat) -> Seq<char> {
    if indent.len() == 0 {
        Seq::empty()
    } else {
        seq!['\n'] + repeated(indent, depth)
    }
}

/// Text over and over.
pub open spec fn repeated(text: Seq<char>, count: nat) -> Seq<char>
    decreases count,
{
    if count == 0 {
        Seq::empty()
    } else {
        repeated(text, (count - 1) as nat) + text
    }
}

/// One property of an object, as JSON writes it.
pub open spec fn member(key: Seq<char>, value: Seq<char>, indent: Seq<char>) -> Seq<char> {
    literal(key) + seq![':'] + (if indent.len() == 0 {
        Seq::empty()
    } else {
        seq![' ']
    }) + value
}

/// Members with a comma between each two and a line break in front of each.
pub open spec fn listed(members: Seq<Seq<char>>, indent: Seq<char>, depth: nat) -> Seq<char>
    decreases members.len(),
{
    if members.len() == 0 {
        Seq::empty()
    } else if members.len() == 1 {
        line_break(indent, depth) + members[0]
    } else {
        listed(members.drop_last(), indent, depth) + seq![','] + line_break(indent, depth)
            + members.last()
    }
}

/// An object at `depth`, as JSON writes it. One with nothing in it is on one line even when an indent
/// was asked for.
pub open spec fn braced(members: Seq<Seq<char>>, indent: Seq<char>, depth: nat) -> Seq<char> {
    seq!['{'] + listed(members, indent, depth + 1) + (if members.len() == 0 {
        Seq::empty()
    } else {
        line_break(indent, depth)
    }) + seq!['}']
}

/// What JSON writes for a value inside the objects that are open, if it has a spelling at all.
pub open spec fn json_of(
    realm: RealmView,
    value: Value,
    indent: Seq<char>,
    open: Seq<usize>,
) -> Result<Option<Seq<char>>, ErrorView>
    decreases realm.objects.len() - open.len(), 0nat,
{
    match value {
        Value::Undefined => Ok(None),
        Value::Null => Ok(Some("null"@)),
        Value::Bool(b) => Ok(Some(truth(b))),
        Value::Number { bits, text } => if is_finite(bits) {
            Ok(Some(realm.number_text(bits, text)))
        } else {
            Ok(Some("null"@))
        },
        Value::Text(text) => Ok(Some(literal(realm.texts[text as int]))),
        Value::Pair(_) => Ok(None),
        Value::Object(object) => if realm.calls(value) {
            Ok(None)
        } else if open.contains(object) {
            Err(ErrorView::Type("Converting circular structure to JSON"@))
        } else if open.len() >= realm.objects.len() {
            Ok(None)
        } else {
            match members_of(
                realm,
                shown(realm.objects[object as int].properties),
                indent,
                open.push(object),
            ) {
                Err(error) => Err(error),
                Ok(members) => Ok(Some(braced(members, indent, open.len()))),
            }
        },
    }
}

/// The members JSON writes for a list of properties. One whose value has no spelling leaves nothing
/// behind, not even its name.
pub open spec fn members_of(
    realm: RealmView,
    properties: Seq<PropertyView>,
    indent: Seq<char>,
    open: Seq<usize>,
) -> Result<Seq<Seq<char>>, ErrorView>
    decreases realm.objects.len() - open.len(), properties.len(),
{
    if properties.len() == 0 {
        Ok(Seq::empty())
    } else {
        match members_of(realm, properties.drop_last(), indent, open) {
            Err(error) => Err(error),
            Ok(before) => if properties.last().attributes.accessor {
                Err(met_an_accessor(properties.last().key))
            } else {
                match json_of(realm, properties.last().value, indent, open) {
                    Err(error) => Err(error),
                    Ok(None) => Ok(before),
                    Ok(Some(text)) => Ok(before.push(member(properties.last().key, text, indent))),
                }
            },
        }
    }
}

/// The bit pattern of a small whole number.
pub open spec fn whole(number: int) -> u64 {
    if number == 1 {
        0x3FF0_0000_0000_0000
    } else if number == 2 {
        0x4000_0000_0000_0000
    } else if number == 3 {
        0x4008_0000_0000_0000
    } else if number == 4 {
        0x4010_0000_0000_0000
    } else if number == 5 {
        0x4014_0000_0000_0000
    } else if number == 6 {
        0x4018_0000_0000_0000
    } else if number == 7 {
        0x401C_0000_0000_0000
    } else if number == 8 {
        0x4020_0000_0000_0000
    } else if number == 9 {
        0x4022_0000_0000_0000
    } else {
        0x4024_0000_0000_0000
    }
}

/// Whether a double is at least a small whole number. Doubles that are not negative are ordered as
/// their bit patterns are, and those above infinity are not numbers.
pub open spec fn reaches(bits: u64, number: int) -> bool {
    whole(number) <= bits <= 0x7FF0_0000_0000_0000
}

/// The largest whole number up to ten that a double reaches, counted up from `from`.
pub open spec fn counted_from(bits: u64, from: int) -> int
    decreases 10 - from,
{
    if from < 10 && reaches(bits, from + 1) {
        counted_from(bits, from + 1)
    } else {
        from
    }
}

/// The text one level of nesting is indented by: a number is floored and clamped to ten, a string is
/// cut to its first ten, and anything else is no indent.
pub open spec fn indent_of(realm: RealmView, space: Value) -> Seq<char> {
    match space {
        Value::Number { bits, .. } => spaces(counted_from(bits, 0)),
        Value::Text(text) => {
            let whole = realm.texts[text as int];
            whole.take(
                if whole.len() < 10 {
                    whole.len() as int
                } else {
                    10
                },
            )
        },
        _ => Seq::empty(),
    }
}

/// What `JSON.stringify` answers, and the realm after it.
pub open spec fn stringified(realm: RealmView, args: Seq<Value>) -> (
    Result<Value, ErrorView>,
    RealmView,
) {
    if realm.calls(argument(args, 1)) {
        (
            Err(
                ErrorView::Unsupported("JSON.stringify does not support a replacer function yet"@),
            ),
            realm,
        )
    } else {
        match json_of(realm, argument(args, 0), indent_of(realm, argument(args, 2)), Seq::empty()) {
            Err(error) => (Err(error), realm),
            Ok(None) => (Ok(Value::Undefined), realm),
            Ok(Some(text)) => (
                Ok(Value::Text(realm.texts.len() as usize)),
                realm.with_text(text),
            ),
        }
    }
}

/// A realm with `JSON` in it.
pub open spec fn installed(realm: RealmView) -> RealmView {
    let stringify = realm.objects.len() as usize;
    let parse = (realm.objects.len() + 1) as usize;
    let json = (realm.objects.len() + 2) as usize;
    realm.with_object(
        RealmView::native_object("stringify"@, Native::JsonStringify, false),
    ).with_object(RealmView::native_object("parse"@, Native::JsonParse, false)).with_object(
        RealmView::empty_object(Some(0usize)),
    ).with_entries(
        json as int,
        seq![("stringify"@, Value::Object(stringify)), ("parse"@, Value::Object(parse))],
        Attributes::data(true, false, true),
    ).with_global("JSON"@, Value::Object(json))
}

/// Put `JSON` in the global scope.
///
/// Its two functions are hidden, like those of every namespace object in the language.
pub fn install(realm: &mut Realm)
    requires
        old(realm)@.fits(),
    ensures
        final(realm)@.fits(),
        old(realm)@.grows_into(final(realm)@),
        final(realm)@ == installed(old(realm)@),
{
    let ghost before = realm@;
    let stringify = realm.native_function("stringify", Native::JsonStringify);
    let ghost first = realm@;
    let parse = realm.native_function("parse", Native::JsonParse);
    let ghost second = realm@;
    proof {
        lemma_growing_is_transitive(before, first, second);
        lemma_growing_keeps_values(first, second, stringify);
    }
    let entries = [("stringify", stringify), ("parse", parse)];
    assert(entry_views(entries@) =~= seq![("stringify"@, stringify), ("parse"@, parse)]);
    let json = realm.host_object_with(&entries, Attributes::builtin());
    let ghost third = realm@;
    proof {
        lemma_growing_is_transitive(before, second, third);
    }
    realm.define_global("JSON", json);
    proof {
        lemma_growing_is_transitive(before, third, realm@);
    }
}

/// `JSON.stringify(value, replacer, space)`.
pub fn stringify(realm: &mut Realm, args: &[Value]) -> (answer: Result<Value, RuntimeError>)
    requires
        old(realm)@.fits(),
        old(realm)@.knows_all(args@),
    ensures
        final(realm)@.fits(),
        old(realm)@.grows_into(final(realm)@),
        (outcome(answer), final(realm)@) == stringified(old(realm)@, args@),
        answer matches Ok(value) ==> final(realm)@.knows(value),
{
    proof {
        lemma_growing_is_reflexive(realm@);
    }
    if realm.is_callable(arg(args, 1)) {
        return Err(
            RuntimeError::unsupported("JSON.stringify does not support a replacer function yet"),
        );
    }
    let indent = indent_from(realm, arg(args, 2));
    let mut out = String::new();
    let mut open: Vec<usize> = Vec::new();
    assert(open@ =~= Seq::<usize>::empty());
    match write(realm, arg(args, 0), indent.as_str(), &mut open, &mut out) {
        Err(error) => Err(error),
        Ok(true) => {
            assert(out@ =~= json_of(
                realm@,
                argument(args@, 0),
                indent@,
                Seq::<usize>::empty(),
            )->Ok_0->0);
            Ok(realm.new_string(out.as_str()))
        },
        // The value had no JSON spelling at all, which at the top level answers `undefined` rather
        // than the text "undefined" and rather than throwing.
        Ok(false) => Ok(Value::Undefined),
    }
}

/// `JSON.parse(text)`, which refuses by name.
///
/// Present and refusing rather than absent. A missing method arrives as an ordinary JavaScript error
/// that a program feature detects around, and refusing says whose gap it is. The refusal is not
/// catchable, because a program that wraps `JSON.parse` in a `try` would take it for malformed input.
pub fn parse() -> (answer: Result<Value, RuntimeError>)
    ensures
        outcome(answer) == Err::<Value, ErrorView>(
            ErrorView::Unsupported("JSON.parse is not supported yet, because it needs arrays"@),
        ),
{
    Err(RuntimeError::unsupported("JSON.parse is not supported yet, because it needs arrays"))
}

/// The bit pattern of a small whole number.
fn whole_bits(number: u8) -> (bits: u64)
    requires
        1 <= number <= 10,
    ensures
        bits == whole(number as int),
{
    match number {
        1 => 0x3FF0_0000_0000_0000,
        2 => 0x4000_0000_0000_0000,
        3 => 0x4008_0000_0000_0000,
        4 => 0x4010_0000_0000_0000,
        5 => 0x4014_0000_0000_0000,
        6 => 0x4018_0000_0000_0000,
        7 => 0x401C_0000_0000_0000,
        8 => 0x4020_0000_0000_0000,
        9 => 0x4022_0000_0000_0000,
        _ => 0x4024_0000_0000_0000,
    }
}

/// The text one level of nesting is indented by, from the third argument.
///
/// A number is floored and clamped, a string is cut to its first ten, and anything else at all is
/// ignored rather than being an error. An empty answer means the whole output is written on one line.
fn indent_from(realm: &Realm, space: Value) -> (indent: String)
    requires
        realm@.knows(space),
    ensures
        indent@ == indent_of(realm@, space),
{
    let mut indent = String::new();
    match space {
        Value::Number { bits, .. } => {
            // Counted up to rather than rounded down, because this only ever has to answer a number
            // between zero and ten. NaN reaches nothing, so it leaves the count at zero.
            let mut count: u8 = 0;
            while count < MAX_INDENT && whole_bits(count + 1) <= bits && bits
                <= 0x7FF0_0000_0000_0000
                invariant
                    count <= 10,
                    counted_from(bits, 0) == counted_from(bits, count as int),
                decreases 10 - count,
            {
                count = count + 1;
            }
            push_spaces(&mut indent, count as usize);
            assert(indent@ =~= spaces(counted_from(bits, 0)));
        },
        Value::Text(index) => {
            let text = realm.text_at(index);
            let ghost all = text@;
            let mut taken: u8 = 0;
            assert(all.take(0) =~= Seq::<char>::empty());
            for c in it: text.as_str().chars()
                invariant
                    it.seq() == all,
                    all == text@,
                    taken <= 10,
                    taken == if it.index() < 10 {
                        it.index() as int
                    } else {
                        10
                    },
                    indent@ == all.take(taken as int),
            {
                if taken < MAX_INDENT {
                    indent.push(c);
                    taken = taken + 1;
                    assert(indent@ =~= all.take(taken as int));
                }
            }
        },
        _ => {},
    }
    indent
}

/// Write one value, and say whether it had a JSON spelling at all.
///
/// `false` means it did not, which is what `undefined` and a function are. The two callers decide
/// differently what to do with that: at the top level it becomes the value `undefined`, and inside an
/// object the property is dropped. Nothing is written to `out` when this answers `false`.
///
/// `open` is the objects currently being written, innermost last, which is how a cycle is caught.
fn write(
    realm: &Realm,
    value: Value,
    indent: &str,
    open: &mut Vec<usize>,
    out: &mut String,
) -> (answer: Result<bool, RuntimeError>)
    requires
        realm@.fits(),
        realm@.knows(value),
        open_fits(realm@, old(open)@),
    ensures
        answer is Ok <==> json_of(realm@, value, indent@, old(open)@) is Ok,
        answer matches Ok(written) ==> {
            let text = json_of(realm@, value, indent@, old(open)@)->Ok_0;
            &&& final(open)@ == old(open)@
            &&& written == (text is Some)
            &&& final(out)@ == old(out)@ + (if written {
                text->0
            } else {
                Seq::empty()
            })
        },
        answer matches Err(error) ==> json_of(realm@, value, indent@, old(open)@) == Err::<
            Option<Seq<char>>,
            ErrorView,
        >(error@),
    decreases realm@.objects.len() - old(open)@.len(), 0nat,
{
    let ghost before = out@;
    assert(before + Seq::<char>::empty() =~= before);
    if realm.is_callable(value) {
        return Ok(false);
    }
    match value {
        Value::Undefined | Value::Pair(_) => Ok(false),
        Value::Null => {
            out.append("null");
            Ok(true)
        },
        Value::Bool(b) => {
            push_truth(out, b);
            Ok(true)
        },
        Value::Number { bits, text } => {
            // The one place JSON is narrower than the language. There is no spelling for NaN or for
            // an infinity, so both become null and the program is not told.
            if bits % 0x8000_0000_0000_0000 < 0x7FF0_0000_0000_0000 {
                let text = realm.number_text(bits, text);
                out.append(text.as_str());
            } else {
                out.append("null");
            }
            Ok(true)
        },
        Value::Text(text) => {
            let text = realm.text_at(text);
            quote(text.as_str(), out);
            Ok(true)
        },
        Value::Object(object) => {
            if is_open(open, object) {
                // Node's exact sentence, because a program that catches this and matches on the
                // message should not be able to tell which engine it is running under.
                return Err(RuntimeError::of_type("Converting circular structure to JSON"));
            }
            let properties = match realm.own_properties(value) {
                Some(properties) => properties,
                None => Vec::new(),
            };
            proof {
                lemma_not_all_are_open(realm@, open@, object);
            }
            match write_object(realm, object, &properties, indent, open, out) {
                Ok(()) => Ok(true),
                Err(error) => Err(error),
            }
        },
    }
}

/// Write an object's braces and the properties between them.
fn write_object(
    realm: &Realm,
    object: usize,
    properties: &Vec<Property>,
    indent: &str,
    open: &mut Vec<usize>,
    out: &mut String,
) -> (answer: Result<(), RuntimeError>)
    requires
        realm@.fits(),
        open_fits(realm@, old(open)@.push(object)),
        old(open)@.len() < realm@.objects.len(),
        forall|i: int| 0 <= i < properties@.len() ==> realm@.slot_fits((#[trigger] properties@[i])@),
    ensures
        ({
            let members = members_of(
                realm@,
                Seq::new(properties@.len(), |i: int| properties@[i]@),
                indent@,
                old(open)@.push(object),
            );
            &&& answer is Ok <==> members is Ok
            &&& answer is Ok ==> final(open)@ == old(open)@ && final(out)@ == old(out)@ + braced(
                members->Ok_0,
                indent@,
                old(open)@.len(),
            )
            &&& answer matches Err(error) ==> members == Err::<Seq<Seq<char>>, ErrorView>(error@)
        }),
    decreases realm@.objects.len() - old(open)@.len() - 1, properties@.len() + 1,
{
    let ghost before = out@;
    let ghost closed = open@;
    let ghost all = Seq::new(properties@.len(), |i: int| properties@[i]@);
    let depth: usize = open.len();
    open.push(object);
    let ghost opened = open@;
    out.push('{');
    let mut written: usize = 0;
    let mut at: usize = 0;
    let ghost mut members: Seq<Seq<char>> = Seq::empty();
    proof {
        assert(all.take(0) =~= Seq::<PropertyView>::empty());
        assert(out@ =~= before + (seq!['{'] + listed(members, indent@, (depth + 1) as nat)));
    }
    while at < properties.len()
        invariant
            at <= properties@.len(),
            realm@.fits(),
            all == Seq::new(properties@.len(), |i: int| properties@[i]@),
            forall|i: int|
                0 <= i < properties@.len() ==> realm@.slot_fits((#[trigger] properties@[i])@),
            open@ == opened,
            opened == closed.push(object),
            depth == closed.len(),
            closed.len() < realm@.objects.len(),
            realm@.objects.len() <= usize::MAX,
            open_fits(realm@, opened),
            written == members.len(),
            written <= at,
            members_of(realm@, all.take(at as int), indent@, opened) == Ok::<
                Seq<Seq<char>>,
                ErrorView,
            >(members),
            out@ == before + (seq!['{'] + listed(members, indent@, (depth + 1) as nat)),
            closed == old(open)@,
            before == old(out)@,
        decreases properties@.len() - at,
    {
        let property = &properties[at];
        let ghost start = out@;
        proof {
            let next = all.take(at + 1);
            assert(next.drop_last() =~= all.take(at as int));
            assert(next.last() == property@);
            assert(realm@.slot_fits(properties@[at as int]@));
        }
        if property.attributes.accessor {
            proof {
                lemma_a_bad_member_ends_it(realm@, all, indent@, opened, at + 1);
            }
            return Err(Realm::native_met_an_accessor(property.key.as_str()));
        }
        // Written to a scratch buffer first because a property whose value has no JSON spelling
        // leaves nothing behind at all, not even its name.
        let mut piece = String::new();
        let present: bool = match write(realm, property.value, indent, open, &mut piece) {
            Ok(present) => present,
            Err(error) => {
                proof {
                    lemma_a_bad_member_ends_it(realm@, all, indent@, opened, at + 1);
                }
                return Err(error);
            },
        };
        if present {
            let ghost text = json_of(realm@, property.value, indent@, opened)->Ok_0->0;
            assert(piece@ =~= text);
            write_member(out, indent, depth + 1, property.key.as_str(), piece.as_str(), written == 0);
            proof {
                let added = member(property.key@, text, indent@);
                lemma_one_more_member(members, added, indent@, (depth + 1) as nat);
                let more = members.push(added);
                assert(out@ =~= before + (seq!['{'] + listed(more, indent@, (depth + 1) as nat)));
                members = more;
            }
            written = written + 1;
        }
        at = at + 1;
    }
    assert(all.take(at as int) =~= all);
    if written > 0 {
        newline_and_indent(out, indent, depth);
    }
    // An object whose every property was undefined is the same `{}`, which is why this counts what
    // was written rather than what was offered.
    out.push('}');
    assert(out@ =~= before + braced(members, indent@, depth as nat));
    let _ = open.pop();
    assert(open@ =~= closed);
    Ok(())
}

/// What stands between the members that are there and one more.
pub open spec fn gap(first: bool, indent: Seq<char>, depth: nat) -> Seq<char> {
    if first {
        line_break(indent, depth)
    } else {
        seq![','] + line_break(indent, depth)
    }
}

proof fn lemma_one_more_member(
    members: Seq<Seq<char>>,
    added: Seq<char>,
    indent: Seq<char>,
    depth: nat,
)
    ensures
        listed(members.push(added), indent, depth) == listed(members, indent, depth) + (gap(
            members.len() == 0,
            indent,
            depth,
        ) + added),
{
    let more = members.push(added);
    assert(more.drop_last() =~= members);
    assert(listed(more, indent, depth) =~= listed(members, indent, depth) + (gap(
        members.len() == 0,
        indent,
        depth,
    ) + added));
}

/// Write one property, with what stands between it and the one before.
fn write_member(
    out: &mut String,
    indent: &str,
    depth: usize,
    key: &str,
    value: &str,
    first: bool,
)
    ensures
        final(out)@ == old(out)@ + (gap(first, indent@, depth as nat) + member(
            key@,
            value@,
            indent@,
        )),
{
    let ghost before = out@;
    if !first {
        out.push(',');
    }
    newline_and_indent(out, indent, depth);
    let ghost opened = out@;
    assert(opened =~= before + gap(first, indent@, depth as nat));
    quote(key, out);
    out.push(':');
    if !indent.is_empty() {
        out.push(' ');
    }
    out.append(value);
    assert(out@ =~= opened + member(key@, value@, indent@));
    assert(out@ =~= before + (gap(first, indent@, depth as nat) + member(key@, value@, indent@)));
}

/// Once one member cannot be written, the rest does not matter.
proof fn lemma_a_bad_member_ends_it(
    realm: RealmView,
    properties: Seq<PropertyView>,
    indent: Seq<char>,
    open: Seq<usize>,
    count: int,
)
    requires
        0 <= count <= properties.len(),
        members_of(realm, properties.take(count), indent, open) is Err,
    ensures
        members_of(realm, properties, indent, open) == members_of(
            realm,
            properties.take(count),
            indent,
            open,
        ),
    decreases properties.len() - count,
{
    if count == properties.len() {
        assert(properties.take(count) =~= properties);
    } else {
        let next = properties.take(count + 1);
        assert(next.drop_last() =~= properties.take(count));
        lemma_a_bad_member_ends_it(realm, properties, indent, open, count + 1);
    }
}

/// Break the line and indent to `depth`, or do nothing at all if there is no indent.
fn newline_and_indent(out: &mut String, indent: &str, depth: usize)
    ensures
        final(out)@ == old(out)@ + line_break(indent@, depth as nat),
{
    let ghost before = out@;
    if indent.is_empty() {
        assert(out@ =~= before + line_break(indent@, depth as nat));
        return ;
    }
    out.push('\n');
    let mut done: usize = 0;
    assert(out@ =~= before + (seq!['\n'] + repeated(indent@, 0)));
    while done < depth
        invariant
            done <= depth,
            out@ == before + (seq!['\n'] + repeated(indent@, done as nat)),
        decreases depth - done,
    {
        out.append(indent);
        done = done + 1;
        assert(out@ =~= before + (seq!['\n'] + repeated(indent@, done as nat)));
    }
}

/// Write text as a JSON string literal, quotes included.
///
/// Only the quote, the backslash and the C0 controls are escaped. Everything else goes out as itself.
fn quote(text: &str, out: &mut String)
    ensures
        final(out)@ == old(out)@ + literal(text@),
{
    let ghost before = out@;
    out.push('"');
    assert(text@.take(0) =~= Seq::<char>::empty());
    assert(out@ =~= before + (seq!['"'] + escaped_text(text@.take(0))));
    for c in it: text.chars()
        invariant
            it.seq() == text@,
            out@ == before + (seq!['"'] + escaped_text(text@.take(it.index() as int))),
    {
        let ghost start = out@;
        proof {
            let next = text@.take(it.index() as int + 1);
            assert(next.drop_last() =~= text@.take(it.index() as int));
            assert(next.last() == c);
            crate::gc::utf16::lemma_char_range(c);
        }
        if c == '"' {
            out.push('\\');
            out.push('"');
        } else if c == '\\' {
            out.push('\\');
            out.push('\\');
        } else if c == '\u{8}' {
            out.push('\\');
            out.push('b');
        } else if c == '\u{c}' {
            out.push('\\');
            out.push('f');
        } else if c == '\n' {
            out.push('\\');
            out.push('n');
        } else if c == '\r' {
            out.push('\\');
            out.push('r');
        } else if c == '\t' {
            out.push('\\');
            out.push('t');
        } else if (c as u32) < 0x20 {
            // The controls without a short spelling have to be written the long way.
            out.push('\\');
            out.push('u');
            push_four_digits(out, c as u32 as u16);
        } else {
            out.push(c);
        }
        assert(out@ =~= start + escaped(c));
        assert(out@ =~= before + (seq!['"'] + escaped_text(text@.take(it.index() as int + 1))));
    }
    assert(text@.take(text@.len() as int) =~= text@);
    out.push('"');
    assert(out@ =~= before + literal(text@));
}

/// The number a hexadecimal digit stands for.
pub open spec fn hex_value(c: char) -> int {
    if '0' as int <= c as int <= '9' as int {
        c as int - '0' as int
    } else {
        c as int - 'a' as int + 10
    }
}

/// How many characters of the inside of a JSON string literal its first character takes.
pub open spec fn first_width(text: Seq<char>) -> int {
    if text[0] != '\\' || text.len() < 2 {
        1
    } else if text[1] == 'u' && text.len() >= 6 {
        6
    } else {
        2
    }
}

/// The first character the inside of a JSON string literal stands for.
pub open spec fn first_char(text: Seq<char>) -> char {
    if first_width(text) == 1 {
        text[0]
    } else if first_width(text) == 6 {
        (4096 * hex_value(text[2]) + 256 * hex_value(text[3]) + 16 * hex_value(text[4]) + hex_value(
            text[5],
        )) as char
    } else if text[1] == 'b' {
        '\u{8}'
    } else if text[1] == 'f' {
        '\u{c}'
    } else if text[1] == 'n' {
        '\n'
    } else if text[1] == 'r' {
        '\r'
    } else if text[1] == 't' {
        '\t'
    } else {
        text[1]
    }
}

/// The text the inside of a JSON string literal stands for.
pub open spec fn unescaped(text: Seq<char>) -> Seq<char>
    decreases text.len(),
{
    if text.len() == 0 {
        Seq::empty()
    } else {
        seq![first_char(text)] + unescaped(text.skip(first_width(text)))
    }
}

/// An escaped character reads back as itself, whatever is behind it.
proof fn lemma_a_character_reads_back(c: char, tail: Seq<char>)
    ensures
        unescaped(escaped(c) + tail) == seq![c] + unescaped(tail),
{
    crate::gc::utf16::lemma_char_range(c);
    let text = escaped(c) + tail;
    assert(text[0] == escaped(c)[0]);
    if escaped(c).len() > 1 {
        assert(text[1] == escaped(c)[1]);
    }
    if escaped(c).len() == 6 {
        let number = c as int;
        assert(four_digits(number as u16) =~= seq![
            digit(0),
            digit(0),
            hex_digit((number / 16) as nat),
            hex_digit((number % 16) as nat),
        ]);
        assert(text[2] == digit(0));
        assert(text[3] == digit(0));
        assert(text[4] == hex_digit((number / 16) as nat));
        assert(text[5] == hex_digit((number % 16) as nat));
        assert(hex_value(text[4]) == number / 16);
        assert(hex_value(text[5]) == number % 16);
    }
    assert(first_width(text) == escaped(c).len());
    assert(first_char(text) == c);
    assert(text.skip(first_width(text)) =~= tail);
}

proof fn lemma_text_reads_back(text: Seq<char>, tail: Seq<char>)
    ensures
        unescaped(escaped_text(text) + tail) == text + unescaped(tail),
    decreases text.len(),
{
    if text.len() == 0 {
        assert(escaped_text(text) + tail =~= tail);
        assert(text + unescaped(tail) =~= unescaped(tail));
    } else {
        let front = text.drop_last();
        let last = text.last();
        assert(escaped_text(text) + tail =~= escaped_text(front) + (escaped(last) + tail));
        lemma_text_reads_back(front, escaped(last) + tail);
        lemma_a_character_reads_back(last, tail);
        assert(front + (seq![last] + unescaped(tail)) =~= text + unescaped(tail));
    }
}

/// A JSON string literal stands for the text it was made from.
pub proof fn law_a_literal_stands_for_its_text(text: Seq<char>)
    ensures
        literal(text) == seq!['"'] + escaped_text(text) + seq!['"'],
        unescaped(escaped_text(text)) == text,
{
    let nothing = Seq::<char>::empty();
    lemma_text_reads_back(text, nothing);
    assert(escaped_text(text) + nothing =~= escaped_text(text));
    assert(text + unescaped(nothing) =~= text);
}

/// Nothing inside a literal is a control character, so a literal never breaks a line.
pub proof fn law_a_literal_holds_no_control_character(text: Seq<char>, i: int)
    requires
        0 <= i < escaped_text(text).len(),
    ensures
        escaped_text(text)[i] as int >= 0x20,
    decreases text.len(),
{
    if text.len() > 0 {
        let front = escaped_text(text.drop_last());
        if i < front.len() {
            law_a_literal_holds_no_control_character(text.drop_last(), i);
        } else {
            let last = text.last();
            crate::gc::utf16::lemma_char_range(last);
            assert(escaped_text(text)[i] == escaped(last)[i - front.len()]);
        }
    }
}

/// A value with no JSON spelling leaves nothing behind: an object writes the same with it and
/// without it.
pub proof fn law_a_value_without_a_spelling_disappears(
    realm: RealmView,
    properties: Seq<PropertyView>,
    added: PropertyView,
    indent: Seq<char>,
    open: Seq<usize>,
)
    requires
        !added.attributes.accessor,
        added.value == Value::Undefined || realm.calls(added.value),
    ensures
        members_of(realm, properties.push(added), indent, open) == members_of(
            realm,
            properties,
            indent,
            open,
        ),
{
    let more = properties.push(added);
    assert(more.drop_last() =~= properties);
    assert(more.last() == added);
    assert(json_of(realm, added.value, indent, open) == Ok::<Option<Seq<char>>, ErrorView>(None));
}

/// An object that is already being written is a cycle, wherever it is met again.
pub proof fn law_a_cycle_is_an_error(
    realm: RealmView,
    object: usize,
    indent: Seq<char>,
    open: Seq<usize>,
)
    requires
        object < realm.objects.len(),
        realm.objects[object as int].function is None,
        open.contains(object),
    ensures
        json_of(realm, Value::Object(object), indent, open) == Err::<Option<Seq<char>>, ErrorView>(
            ErrorView::Type("Converting circular structure to JSON"@),
        ),
{
}

/// Either zero is written `0`, and a number that is not finite is written `null`, whatever text came
/// with it.
pub proof fn law_the_sign_of_zero_and_what_is_not_finite_are_lost(
    realm: RealmView,
    bits: u64,
    text: usize,
    indent: Seq<char>,
    open: Seq<usize>,
)
    ensures
        is_zero(bits) ==> json_of(realm, Value::Number { bits, text }, indent, open) == Ok::<
            Option<Seq<char>>,
            ErrorView,
        >(Some("0"@)),
        !is_finite(bits) ==> json_of(realm, Value::Number { bits, text }, indent, open) == Ok::<
            Option<Seq<char>>,
            ErrorView,
        >(Some("null"@)),
{
}

/// Every finite number, negative ones among them, is written as the text it converts to.
pub proof fn law_a_finite_number_is_written_as_it_converts(
    realm: RealmView,
    bits: u64,
    text: usize,
    indent: Seq<char>,
    open: Seq<usize>,
)
    ensures
        bits < 0x7FF0_0000_0000_0000 || 0x8000_0000_0000_0000 <= bits < 0xFFF0_0000_0000_0000
            ==> json_of(realm, Value::Number { bits, text }, indent, open) == Ok::<
            Option<Seq<char>>,
            ErrorView,
        >(
            Some(
                text_of(realm, Value::Number { bits, text })->Ok_0,
            ),
        ),
        !(bits < 0x7FF0_0000_0000_0000 || 0x8000_0000_0000_0000 <= bits < 0xFFF0_0000_0000_0000)
            ==> json_of(realm, Value::Number { bits, text }, indent, open) == Ok::<
            Option<Seq<char>>,
            ErrorView,
        >(Some("null"@)),
{
}

/// What JSON writes for each value that is no object: `null` and the truth values as words, text as a
/// literal, and nothing at all for `undefined` and for a function.
pub proof fn law_what_json_writes_for_a_value(
    realm: RealmView,
    place: usize,
    indent: Seq<char>,
    open: Seq<usize>,
)
    ensures
        json_of(realm, Value::Undefined, indent, open) == Ok::<Option<Seq<char>>, ErrorView>(None),
        json_of(realm, Value::Null, indent, open) == Ok::<Option<Seq<char>>, ErrorView>(
            Some("null"@),
        ),
        json_of(realm, Value::Bool(true), indent, open) == Ok::<Option<Seq<char>>, ErrorView>(
            Some("true"@),
        ),
        json_of(realm, Value::Bool(false), indent, open) == Ok::<Option<Seq<char>>, ErrorView>(
            Some("false"@),
        ),
        json_of(realm, Value::Text(place), indent, open) == Ok::<Option<Seq<char>>, ErrorView>(
            Some(seq!['"'] + escaped_text(realm.texts[place as int]) + seq!['"']),
        ),
        place < realm.objects.len() && realm.objects[place as int].function is Some ==> json_of(
            realm,
            Value::Object(place),
            indent,
            open,
        ) == Ok::<Option<Seq<char>>, ErrorView>(None),
{
}

/// Which characters are escaped in a literal and how: the quote and the backslash behind a backslash,
/// five controls by a letter, every other control by its number in four digits, and no other
/// character at all.
pub proof fn law_which_characters_are_escaped(text: Seq<char>, c: char)
    ensures
        escaped_text(text.push(c)) == escaped_text(text) + escaped(c),
        escaped_text(Seq::<char>::empty()) == Seq::<char>::empty(),
        c as int >= 32 && c as int != 34 && c as int != 92 ==> escaped(c) == seq![c],
        c as int == 34 ==> escaped(c) == seq!['\\', '"'],
        c as int == 92 ==> escaped(c) == seq!['\\', '\\'],
        c as int == 8 ==> escaped(c) == seq!['\\', 'b'],
        c as int == 9 ==> escaped(c) == seq!['\\', 't'],
        c as int == 10 ==> escaped(c) == seq!['\\', 'n'],
        c as int == 12 ==> escaped(c) == seq!['\\', 'f'],
        c as int == 13 ==> escaped(c) == seq!['\\', 'r'],
        c as int == 7 || c as int == 11 || c as int <= 6 || 14 <= c as int <= 31 ==> escaped(c)
            =~= seq![
            '\\',
            'u',
            '0',
            '0',
            hex_digit((c as int / 16) as nat),
            hex_digit((c as int % 16) as nat),
        ],
{
    assert(text.push(c).drop_last() =~= text);
    lemma_char_range(c);
    lemma_char_number(c, '"');
    lemma_char_number(c, '\\');
    lemma_char_number(c, '\u{8}');
    lemma_char_number(c, '\t');
    lemma_char_number(c, '\n');
    lemma_char_number(c, '\u{c}');
    lemma_char_number(c, '\r');
}

/// Two characters with the same number are the same character.
proof fn lemma_char_number(left: char, right: char)
    ensures
        left as int == right as int <==> left == right,
{
}

/// How an object is written: a brace, the members with a comma between each two, and a brace. With an
/// indent every member is on a line of its own, one level in, its value one space behind the colon,
/// and the closing brace is on a line of its own unless there is no member.
pub proof fn law_how_an_object_is_written(
    members: Seq<Seq<char>>,
    added: Seq<char>,
    key: Seq<char>,
    value: Seq<char>,
    indent: Seq<char>,
    depth: nat,
)
    ensures
        braced(Seq::empty(), indent, depth) =~= seq!['{', '}'],
        members.len() == 0 ==> listed(members.push(added), indent, depth) == line_break(
            indent,
            depth,
        ) + added,
        members.len() > 0 ==> listed(members.push(added), indent, depth) =~= listed(
            members,
            indent,
            depth,
        ) + seq![','] + line_break(indent, depth) + added,
        members.len() > 0 ==> braced(members, indent, depth) =~= seq!['{'] + listed(
            members,
            indent,
            depth + 1,
        ) + line_break(indent, depth) + seq!['}'],
        indent.len() == 0 ==> line_break(indent, depth) == Seq::<char>::empty(),
        indent.len() > 0 ==> line_break(indent, 0) =~= seq!['\n'] && line_break(indent, depth + 1)
            =~= line_break(indent, depth) + indent,
        indent.len() == 0 ==> member(key, value, indent) =~= literal(key) + seq![':'] + value,
        indent.len() > 0 ==> member(key, value, indent) =~= literal(key) + seq![':', ' '] + value,
{
    assert(members.push(added).drop_last() =~= members);
    assert(listed(Seq::<Seq<char>>::empty(), indent, depth + 1) =~= Seq::<char>::empty());
}

/// Which members an object has: those it shows, in order, under their names. One whose value has no
/// spelling leaves nothing, and one that would have to be called, or whose value cannot be written, is
/// the end of it.
pub proof fn law_which_members_an_object_has(
    realm: RealmView,
    properties: Seq<PropertyView>,
    last: PropertyView,
    indent: Seq<char>,
    open: Seq<usize>,
)
    ensures
        members_of(realm, Seq::empty(), indent, open) == Ok::<Seq<Seq<char>>, ErrorView>(
            Seq::empty(),
        ),
        ({
            let all = members_of(realm, properties.push(last), indent, open);
            match members_of(realm, properties, indent, open) {
                Err(error) => all == Err::<Seq<Seq<char>>, ErrorView>(error),
                Ok(before) => {
                    &&& last.attributes.accessor ==> all is Err
                    &&& !last.attributes.accessor ==> match json_of(realm, last.value, indent, open) {
                        Err(error) => all == Err::<Seq<Seq<char>>, ErrorView>(error),
                        Ok(None) => all == Ok::<Seq<Seq<char>>, ErrorView>(before),
                        Ok(Some(text)) => all == Ok::<Seq<Seq<char>>, ErrorView>(
                            before.push(member(last.key, text, indent)),
                        ),
                    }
                },
            }
        }),
{
    assert(properties.push(last).drop_last() =~= properties);
}

/// An object that is not open yet is written as the members of what it shows, one level inside what is
/// open.
pub proof fn law_an_object_is_written_as_what_it_shows(
    realm: RealmView,
    object: usize,
    indent: Seq<char>,
    open: Seq<usize>,
)
    requires
        open_fits(realm, open),
        object < realm.objects.len(),
        realm.objects[object as int].function is None,
        !open.contains(object),
    ensures
        json_of(realm, Value::Object(object), indent, open) == match members_of(
            realm,
            shown(realm.objects[object as int].properties),
            indent,
            open.push(object),
        ) {
            Err(error) => Err::<Option<Seq<char>>, ErrorView>(error),
            Ok(members) => Ok(Some(braced(members, indent, open.len()))),
        },
{
    lemma_not_all_are_open(realm, open, object);
}

/// What indents: a number by that many spaces, rounded down, none below one and ten at most; text by
/// itself, cut to ten characters; and nothing else at all.
pub proof fn law_what_indents(realm: RealmView, bits: u64, place: usize, count: int)
    requires
        0 <= count <= 10,
    ensures
        ({
            let ones = seq![
                0x3FF0_0000_0000_0000u64,
                0x4000_0000_0000_0000u64,
                0x4008_0000_0000_0000u64,
                0x4010_0000_0000_0000u64,
                0x4014_0000_0000_0000u64,
                0x4018_0000_0000_0000u64,
                0x401C_0000_0000_0000u64,
                0x4020_0000_0000_0000u64,
                0x4022_0000_0000_0000u64,
                0x4024_0000_0000_0000u64,
            ];
            let reached = count == 0 || ones[count - 1] <= bits;
            let passed = count == 10 || bits < ones[count];
            &&& bits <= 0x7FF0_0000_0000_0000 && reached && passed ==> indent_of(
                realm,
                Value::Number { bits, text: place },
            ) =~= Seq::new(count as nat, |i: int| ' ')
            &&& bits > 0x7FF0_0000_0000_0000 ==> indent_of(
                realm,
                Value::Number { bits, text: place },
            ) =~= Seq::<char>::empty()
        }),
        realm.texts[place as int].len() <= 10 ==> indent_of(realm, Value::Text(place))
            =~= realm.texts[place as int],
        realm.texts[place as int].len() > 10 ==> indent_of(realm, Value::Text(place))
            == realm.texts[place as int].take(10),
        indent_of(realm, Value::Undefined) == Seq::<char>::empty(),
        indent_of(realm, Value::Null) == Seq::<char>::empty(),
        indent_of(realm, Value::Bool(true)) == Seq::<char>::empty(),
        indent_of(realm, Value::Bool(false)) == Seq::<char>::empty(),
        indent_of(realm, Value::Object(place)) == Seq::<char>::empty(),
{
    reveal_with_fuel(counted_from, 12);
}

/// What `JSON.stringify` answers: the text for a value that has one, `undefined` for a value that has
/// none, the error when there is one, and a refusal for a replacer that is a function.
pub proof fn law_what_stringify_answers(realm: RealmView, args: Seq<Value>)
    ensures
        realm.calls(argument(args, 1)) ==> stringified(realm, args) == (
            Err::<Value, ErrorView>(
                ErrorView::Unsupported("JSON.stringify does not support a replacer function yet"@),
            ),
            realm,
        ),
        !realm.calls(argument(args, 1)) ==> match json_of(
            realm,
            argument(args, 0),
            indent_of(realm, argument(args, 2)),
            Seq::empty(),
        ) {
            Err(error) => stringified(realm, args) == (Err::<Value, ErrorView>(error), realm),
            Ok(None) => stringified(realm, args) == (Ok::<Value, ErrorView>(Value::Undefined), realm),
            Ok(Some(text)) => {
                let (answer, later) = stringified(realm, args);
                &&& answer == Ok::<Value, ErrorView>(Value::Text(realm.texts.len() as usize))
                &&& later.texts == realm.texts.push(text)
                &&& later.objects == realm.objects
            },
        },
{
}

} // verus!
