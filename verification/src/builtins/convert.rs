//! Turning a value into text.
//!
//! An object is converted by the `toString` it inherits. Two of those are written in Rust and can be
//! answered here, the one on `Object.prototype` and the one on `Error.prototype`, and any other one
//! would have to be called. An object that finds no `toString` at all is converted as
//! `Object.prototype` would convert it when its chain arrives there, and has no text when it does not.
//!
//! Converting an error converts its name and its message, and those can be errors too. A conversion
//! that leads back to an error that is still being converted would never end, and is the error for
//! running out of stack. Any other chain is followed to its end, however long it is.

use vstd::prelude::*;
use vstd::set_lib::{lemma_int_range, lemma_len_subset, set_int_range};

use crate::builtins::realm::{Realm, RealmView};
use crate::builtins::value::{is_zero, ErrorView, Native, RuntimeError, Value};
use crate::text::truth;

verus! {

/// The outcome of a conversion as mathematical values.
pub open spec fn text_outcome(result: Result<String, RuntimeError>) -> Result<Seq<char>, ErrorView> {
    match result {
        Ok(text) => Ok(text@),
        Err(error) => Err(error@),
    }
}

/// The error for an object that has no text.
pub open spec fn no_primitive() -> ErrorView {
    ErrorView::Type("Cannot convert object to primitive value"@)
}

/// What `Object.prototype.toString` says about an object.
pub open spec fn object_tag(realm: RealmView, value: Value) -> Seq<char> {
    if realm.calls(value) {
        "[object Function]"@
    } else {
        "[object Object]"@
    }
}

/// The error for a conversion that never ends.
pub open spec fn never_ends() -> ErrorView {
    ErrorView::Range("Maximum call stack size exceeded"@)
}

/// Whether the open objects are all there and none is open twice.
pub open spec fn open_fits(realm: RealmView, open: Seq<usize>) -> bool {
    &&& open.no_duplicates()
    &&& forall|i: int| 0 <= i < open.len() ==> (#[trigger] open[i]) < realm.objects.len()
}

/// A value as text, inside the conversions that are open.
pub open spec fn text_within(realm: RealmView, value: Value, open: Seq<usize>) -> Result<
    Seq<char>,
    ErrorView,
>
    decreases realm.objects.len() - open.len(), 0nat,
{
    match value {
        Value::Undefined => Ok("undefined"@),
        Value::Null => Ok("null"@),
        Value::Bool(b) => Ok(truth(b)),
        Value::Number { bits, text } => Ok(realm.number_text(bits, text)),
        Value::Text(text) => Ok(realm.texts[text as int]),
        Value::Pair(_) => Ok(Seq::empty()),
        Value::Object(object) => if open.contains(object) || open.len() >= realm.objects.len() {
            Err(never_ends())
        } else {
            match realm.looked_up(value, "toString"@) {
                Err(error) => Err(error),
                Ok(None) => if realm.below_the_top(value) {
                    Ok(object_tag(realm, value))
                } else {
                    Err(no_primitive())
                },
                Ok(Some(method)) => match realm.native_behind(method) {
                    Some(Native::ObjectToString) => Ok(object_tag(realm, value)),
                    Some(Native::ErrorToString) => error_within(realm, value, open.push(object)),
                    _ => if realm.calls(method) {
                        Err(
                            ErrorView::Unsupported(
                                "converting an object here means calling its toString, which a function written in Rust cannot do yet"@,
                            ),
                        )
                    } else {
                        Err(no_primitive())
                    },
                },
            }
        },
    }
}

/// A property of an error as text, or `missing` when it is not there or `undefined`.
pub open spec fn part_within(
    realm: RealmView,
    value: Value,
    key: Seq<char>,
    missing: Seq<char>,
    open: Seq<usize>,
) -> Result<Seq<char>, ErrorView>
    decreases realm.objects.len() - open.len(), 1nat,
{
    match realm.looked_up(value, key) {
        Err(error) => Err(error),
        Ok(None) => Ok(missing),
        Ok(Some(Value::Undefined)) => Ok(missing),
        Ok(Some(held)) => text_within(realm, held, open),
    }
}

/// A name and a message the way an error is written: an empty half is dropped along with the colon.
pub open spec fn joined(name: Seq<char>, message: Seq<char>) -> Seq<char> {
    if name.len() == 0 {
        message
    } else if message.len() == 0 {
        name
    } else {
        name + ": "@ + message
    }
}

/// What `Error.prototype.toString` says about an object.
pub open spec fn error_within(realm: RealmView, value: Value, open: Seq<usize>) -> Result<
    Seq<char>,
    ErrorView,
>
    decreases realm.objects.len() - open.len(), 2nat,
{
    match part_within(realm, value, "name"@, "Error"@, open) {
        Err(error) => Err(error),
        Ok(name) => match part_within(realm, value, "message"@, Seq::empty(), open) {
            Err(error) => Err(error),
            Ok(message) => Ok(joined(name, message)),
        },
    }
}

/// A value as text, the way `String(value)` and `'' + value` convert it.
pub open spec fn text_of(realm: RealmView, value: Value) -> Result<Seq<char>, ErrorView> {
    text_within(realm, value, Seq::empty())
}

/// A value as text.
pub fn to_text(realm: &Realm, value: Value) -> (text: Result<String, RuntimeError>)
    requires
        realm@.fits(),
        realm@.knows(value),
    ensures
        text_outcome(text) == text_of(realm@, value),
{
    let mut open: Vec<usize> = Vec::new();
    convert(realm, value, &mut open)
}

/// What `Object.prototype.toString` says about an object.
fn tag(realm: &Realm, value: Value) -> (text: String)
    requires
        realm@.knows(value),
    ensures
        text@ == object_tag(realm@, value),
{
    if realm.is_callable(value) {
        "[object Function]".to_owned()
    } else {
        "[object Object]".to_owned()
    }
}

/// While an object is not open, fewer objects are open than there are.
pub(crate) proof fn lemma_not_all_are_open(realm: RealmView, open: Seq<usize>, object: usize)
    requires
        open_fits(realm, open),
        !open.contains(object),
        object < realm.objects.len(),
    ensures
        open.len() < realm.objects.len(),
        open_fits(realm, open.push(object)),
{
    let more = open.push(object);
    assert forall|i: int, j: int| 0 <= i < more.len() && 0 <= j < more.len() && i != j implies more[i]
        != more[j] by {
        if i == open.len() {
            assert(open[j] != object);
        } else if j == open.len() {
            assert(open[i] != object);
        }
    }
    let numbers = more.map_values(|x: usize| x as int);
    assert(numbers.no_duplicates());
    numbers.unique_seq_to_set();
    let all = set_int_range(0, realm.objects.len() as int);
    lemma_int_range(0, realm.objects.len() as int);
    assert(numbers.to_set().subset_of(all)) by {
        assert forall|n: int| numbers.to_set().contains(n) implies all.contains(n) by {
            let i = choose|i: int| 0 <= i < numbers.len() && numbers[i] == n;
            assert(more[i] < realm.objects.len());
        }
    }
    lemma_len_subset(numbers.to_set(), all);
}

/// Whether an object is one of those that are open.
pub(crate) fn is_open(open: &Vec<usize>, object: usize) -> (answer: bool)
    ensures
        answer == open@.contains(object),
{
    let mut at: usize = 0;
    while at < open.len()
        invariant
            at <= open@.len(),
            forall|i: int| 0 <= i < at ==> open@[i] != object,
        decreases open@.len() - at,
    {
        if open[at] == object {
            return true;
        }
        at = at + 1;
    }
    false
}

fn convert(realm: &Realm, value: Value, open: &mut Vec<usize>) -> (text: Result<
    String,
    RuntimeError,
>)
    requires
        realm@.fits(),
        realm@.knows(value),
        open_fits(realm@, old(open)@),
    ensures
        text_outcome(text) == text_within(realm@, value, old(open)@),
        text is Ok ==> final(open)@ == old(open)@,
    decreases realm@.objects.len() - old(open)@.len(), 0nat,
{
    match value {
        Value::Undefined => Ok("undefined".to_owned()),
        Value::Null => Ok("null".to_owned()),
        Value::Bool(b) => if b {
            Ok("true".to_owned())
        } else {
            Ok("false".to_owned())
        },
        Value::Number { bits, text } => Ok(realm.number_text(bits, text)),
        Value::Text(text) => Ok(realm.text_at(text)),
        Value::Pair(_) => Ok(String::new()),
        Value::Object(object) => {
            if is_open(open, object) {
                return Err(RuntimeError::Range("Maximum call stack size exceeded".to_owned()));
            }
            proof {
                lemma_not_all_are_open(realm@, open@, object);
            }
            let method = match realm.lookup(value, "toString") {
                Err(error) => {
                    return Err(error);
                },
                Ok(None) => {
                    return if object == 0 || realm.is_above(realm.object_prototype(), object) {
                        Ok(tag(realm, value))
                    } else {
                        Err(RuntimeError::of_type("Cannot convert object to primitive value"))
                    };
                },
                Ok(Some(method)) => method,
            };
            match realm.native_of(method) {
                Some(Native::ObjectToString) => Ok(tag(realm, value)),
                Some(Native::ErrorToString) => {
                    let ghost before = open@;
                    open.push(object);
                    match describe_error_within(realm, value, open) {
                        Ok(text) => {
                            let _ = open.pop();
                            assert(open@ =~= before);
                            Ok(text)
                        },
                        Err(error) => Err(error),
                    }
                },
                _ => if realm.is_callable(method) {
                    Err(
                        RuntimeError::unsupported(
                            "converting an object here means calling its toString, which a function written in Rust cannot do yet",
                        ),
                    )
                } else {
                    Err(RuntimeError::of_type("Cannot convert object to primitive value"))
                },
            }
        },
    }
}

fn part(
    realm: &Realm,
    value: Value,
    key: &str,
    missing: &str,
    open: &mut Vec<usize>,
) -> (text: Result<String, RuntimeError>)
    requires
        realm@.fits(),
        realm@.knows(value),
        open_fits(realm@, old(open)@),
    ensures
        text_outcome(text) == part_within(realm@, value, key@, missing@, old(open)@),
        text is Ok ==> final(open)@ == old(open)@,
    decreases realm@.objects.len() - old(open)@.len(), 1nat,
{
    match realm.lookup(value, key) {
        Err(error) => Err(error),
        Ok(None) => Ok(missing.to_owned()),
        Ok(Some(held)) => if held.is_undefined() {
            Ok(missing.to_owned())
        } else {
            convert(realm, held, open)
        },
    }
}

fn describe_error_within(realm: &Realm, value: Value, open: &mut Vec<usize>) -> (text: Result<
    String,
    RuntimeError,
>)
    requires
        realm@.fits(),
        realm@.knows(value),
        open_fits(realm@, old(open)@),
    ensures
        text_outcome(text) == error_within(realm@, value, old(open)@),
        text is Ok ==> final(open)@ == old(open)@,
    decreases realm@.objects.len() - old(open)@.len(), 2nat,
{
    let name = match part(realm, value, "name", "Error", open) {
        Ok(name) => name,
        Err(error) => {
            return Err(error);
        },
    };
    let empty = String::new();
    assert(empty@ =~= Seq::<char>::empty());
    let message = match part(realm, value, "message", empty.as_str(), open) {
        Ok(message) => message,
        Err(error) => {
            return Err(error);
        },
    };
    if name.as_str().is_empty() {
        Ok(message)
    } else if message.as_str().is_empty() {
        Ok(name)
    } else {
        let mut text = name;
        text.append(": ");
        text.append(message.as_str());
        Ok(text)
    }
}

/// What `Error.prototype.toString` says about an object: its name and its message.
pub fn describe_error(realm: &Realm, value: Value) -> (text: Result<String, RuntimeError>)
    requires
        realm@.fits(),
        realm@.knows(value),
    ensures
        text_outcome(text) == error_within(realm@, value, Seq::empty()),
{
    let mut open: Vec<usize> = Vec::new();
    describe_error_within(realm, value, &mut open)
}

/// Whether the call that is running was made with `new` changes nothing about what is found on an
/// object.
proof fn lemma_lookup_ignores_new(realm: RealmView, object: int, key: Seq<char>, constructing: bool)
    ensures
        ({
            let other = RealmView { constructing, ..realm };
            &&& other.inherited(object, key) == realm.inherited(object, key)
            &&& other.is_above(Value::Object(0), object) == realm.is_above(Value::Object(0), object)
        }),
    decreases object,
{
    if let Some(above) = realm.objects[object].prototype {
        if above < object {
            lemma_lookup_ignores_new(realm, above as int, key, constructing);
        }
    }
}

/// Whether the call that is running was made with `new` changes nothing about what a value converts
/// to.
pub(crate) proof fn lemma_conversion_ignores_new(
    realm: RealmView,
    value: Value,
    open: Seq<usize>,
    constructing: bool,
)
    ensures
        text_within(RealmView { constructing, ..realm }, value, open) == text_within(
            realm,
            value,
            open,
        ),
    decreases realm.objects.len() - open.len(),
{
    if let Value::Object(object) = value {
        lemma_lookup_ignores_new(realm, object as int, "toString"@, constructing);
        if open.len() < realm.objects.len() {
            let inside = open.push(object);
            lemma_lookup_ignores_new(realm, object as int, "name"@, constructing);
            lemma_lookup_ignores_new(realm, object as int, "message"@, constructing);
            match realm.looked_up(value, "name"@) {
                Ok(Some(held)) => lemma_conversion_ignores_new(realm, held, inside, constructing),
                _ => {},
            }
            match realm.looked_up(value, "message"@) {
                Ok(Some(held)) => lemma_conversion_ignores_new(realm, held, inside, constructing),
                _ => {},
            }
        }
    }
}

/// Whether the call that is running was made with `new` changes nothing about what a property reads
/// as.
pub(crate) proof fn lemma_reading_ignores_new(
    realm: RealmView,
    value: Value,
    key: Seq<char>,
    constructing: bool,
)
    ensures
        (RealmView { constructing, ..realm }).looked_up(value, key) == realm.looked_up(value, key),
{
    if let Value::Object(object) = value {
        lemma_lookup_ignores_new(realm, object as int, key, constructing);
    }
}

/// A number that is a zero converts to `0` whichever zero it is, and the console alone shows which.
pub proof fn law_every_zero_is_written_zero(realm: RealmView, bits: u64, text: usize)
    requires
        is_zero(bits),
    ensures
        text_of(realm, Value::Number { bits, text }) == Ok::<Seq<char>, ErrorView>("0"@),
        realm.display_text(Value::Number { bits, text }) == if bits == 0 {
            "0"@
        } else {
            "-0"@
        },
{
}

/// A conversion that leads back to an object that is still being converted is refused, and no other
/// is for being long: while an object is not being converted there is room to convert it.
pub proof fn law_only_a_conversion_that_leads_back_never_ends(
    realm: RealmView,
    object: usize,
    open: Seq<usize>,
)
    requires
        open_fits(realm, open),
        object < realm.objects.len(),
    ensures
        open.contains(object) ==> text_within(realm, Value::Object(object), open) == Err::<
            Seq<char>,
            ErrorView,
        >(never_ends()),
        !open.contains(object) ==> open.len() < realm.objects.len() && open_fits(
            realm,
            open.push(object),
        ),
{
    if !open.contains(object) {
        lemma_not_all_are_open(realm, open, object);
    }
}

/// What each value converts to. The words for the values that are words, a number as it is written and
/// text as it is. An object converts by the `toString` it inherits: the one on `Object.prototype` tags
/// it, the one on `Error.prototype` says its name and message, a function the program wrote is refused
/// and anything else has no text. One that inherits none is tagged when its chain ends where every
/// ordinary chain does, and has no text otherwise.
pub proof fn law_what_a_value_converts_to(
    realm: RealmView,
    bits: u64,
    place: usize,
    open: Seq<usize>,
)
    requires
        realm.fits(),
        open_fits(realm, open),
        place < realm.objects.len(),
        !open.contains(place),
    ensures
        text_of(realm, Value::Object(place)) == text_within(
            realm,
            Value::Object(place),
            Seq::empty(),
        ),
        text_within(realm, Value::Undefined, open) == Ok::<Seq<char>, ErrorView>("undefined"@),
        text_within(realm, Value::Null, open) == Ok::<Seq<char>, ErrorView>("null"@),
        text_within(realm, Value::Bool(true), open) == Ok::<Seq<char>, ErrorView>("true"@),
        text_within(realm, Value::Bool(false), open) == Ok::<Seq<char>, ErrorView>("false"@),
        text_within(realm, Value::Number { bits, text: place }, open) == Ok::<Seq<char>, ErrorView>(
            realm.number_text(bits, place),
        ),
        text_within(realm, Value::Text(place), open) == Ok::<Seq<char>, ErrorView>(
            realm.texts[place as int],
        ),
        ({
            let this = Value::Object(place);
            let text = text_within(realm, this, open);
            let tag = if realm.objects[place as int].function is Some {
                "[object Function]"@
            } else {
                "[object Object]"@
            };
            let unconvertible = ErrorView::Type("Cannot convert object to primitive value"@);
            let chained = place == 0 || realm.is_above(Value::Object(0), place as int);
            match realm.looked_up(this, "toString"@) {
                Err(error) => text == Err::<Seq<char>, ErrorView>(error),
                Ok(None) => text == if chained {
                    Ok::<Seq<char>, ErrorView>(tag)
                } else {
                    Err(unconvertible)
                },
                Ok(Some(method)) => {
                    let native = realm.native_behind(method);
                    &&& native == Some(Native::ObjectToString) ==> text == Ok::<
                        Seq<char>,
                        ErrorView,
                    >(tag)
                    &&& native == Some(Native::ErrorToString) ==> text == error_within(
                        realm,
                        this,
                        open.push(place),
                    )
                    &&& !realm.calls(method) && native is None ==> text == Err::<
                        Seq<char>,
                        ErrorView,
                    >(unconvertible)
                    &&& realm.calls(method) && native != Some(Native::ObjectToString) && native
                        != Some(Native::ErrorToString) ==> text == Err::<Seq<char>, ErrorView>(
                        ErrorView::Unsupported(
                            "converting an object here means calling its toString, which a function written in Rust cannot do yet"@,
                        ),
                    )
                },
            }
        }),
{
    lemma_not_all_are_open(realm, open, place);
}

/// What an error says: its name, a colon and its message, where a name that is not there is `Error`, a
/// message that is not there is nothing, and an empty half goes along with the colon.
pub proof fn law_what_an_error_says(
    realm: RealmView,
    value: Value,
    open: Seq<usize>,
    name: Seq<char>,
    message: Seq<char>,
)
    ensures
        ({
            let held_name = realm.looked_up(value, "name"@);
            let held_message = realm.looked_up(value, "message"@);
            let says_name = (held_name == Ok::<Option<Value>, ErrorView>(None) || held_name == Ok::<
                Option<Value>,
                ErrorView,
            >(Some(Value::Undefined))) && name == "Error"@ || (held_name matches Ok(Some(held))
                && held != Value::Undefined && text_within(realm, held, open) == Ok::<
                Seq<char>,
                ErrorView,
            >(name));
            let says_message = (held_message == Ok::<Option<Value>, ErrorView>(None) || held_message
                == Ok::<Option<Value>, ErrorView>(Some(Value::Undefined))) && message.len() == 0 || (
            held_message matches Ok(Some(held)) && held != Value::Undefined && text_within(
                realm,
                held,
                open,
            ) == Ok::<Seq<char>, ErrorView>(message));
            says_name && says_message ==> error_within(realm, value, open) == Ok::<
                Seq<char>,
                ErrorView,
            >(
                if name.len() == 0 {
                    message
                } else if message.len() == 0 {
                    name
                } else {
                    name + ": "@ + message
                },
            )
        }),
{
    assert(message.len() == 0 ==> message =~= Seq::<char>::empty());
}

/// What keeps an error from saying anything: its name when that cannot be read or converted, and then
/// its message.
pub proof fn law_what_keeps_an_error_from_speaking(
    realm: RealmView,
    value: Value,
    open: Seq<usize>,
)
    ensures
        realm.looked_up(value, "name"@) matches Err(error) ==> error_within(realm, value, open)
            == Err::<Seq<char>, ErrorView>(error),
        realm.looked_up(value, "name"@) matches Ok(Some(held)) && held != Value::Undefined
            && text_within(realm, held, open) is Err ==> error_within(realm, value, open) == Err::<
            Seq<char>,
            ErrorView,
        >(text_within(realm, realm.looked_up(value, "name"@)->Ok_0->0, open)->Err_0),
        realm.looked_up(value, "name"@) == Ok::<Option<Value>, ErrorView>(None) && (
        realm.looked_up(value, "message"@) matches Err(_)) ==> error_within(realm, value, open)
            == Err::<Seq<char>, ErrorView>(realm.looked_up(value, "message"@)->Err_0),
        realm.looked_up(value, "name"@) == Ok::<Option<Value>, ErrorView>(None) && (
        realm.looked_up(value, "message"@) matches Ok(Some(held)) && held != Value::Undefined
            && text_within(realm, held, open) is Err) ==> error_within(realm, value, open) == Err::<
            Seq<char>,
            ErrorView,
        >(text_within(realm, realm.looked_up(value, "message"@)->Ok_0->0, open)->Err_0),
{
}

} // verus!
