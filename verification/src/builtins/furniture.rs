//! What each builtin puts into a realm: which names are bound, what is on the objects behind them and
//! what may be done to it.

use vstd::prelude::*;

use crate::builtins::object::lemma_only_that_key;
use crate::builtins::realm::{well_listed, RealmView};
use crate::builtins::value::{Attributes, ErrorKind, Native, Stream, Value};
use crate::builtins::{console, error, function, globals, json, object, performance, string};

verus! {

/// Whether an object has functions written in Rust under a key, with some attributes.
pub open spec fn has_native(
    realm: RealmView,
    object: Value,
    key: Seq<char>,
    native: Native,
    attributes: Attributes,
) -> bool {
    realm.own(object, key) matches Some((held, allowed)) && allowed == attributes
        && realm.native_behind(held) == Some(native)
}

/// Properties that are put on an object one after the other are all there, each with the attributes,
/// and nothing else of the realm is touched.
proof fn lemma_entries_are_there(
    realm: RealmView,
    object: int,
    entries: Seq<(Seq<char>, Value)>,
    attributes: Attributes,
)
    requires
        0 <= object < realm.objects.len() <= usize::MAX,
        well_listed(realm.objects[object].properties),
        forall|i: int, j: int|
            0 <= i < j < entries.len() ==> (#[trigger] entries[i]).0 != (#[trigger] entries[j]).0,
    ensures
        ({
            let later = realm.with_entries(object, entries, attributes);
            let this = Value::Object(object as usize);
            &&& later.objects.len() == realm.objects.len()
            &&& later.globals == realm.globals
            &&& later.texts == realm.texts
            &&& well_listed(later.objects[object].properties)
            &&& later.objects[object].prototype == realm.objects[object].prototype
            &&& later.objects[object].function == realm.objects[object].function
            &&& forall|k: int| 0 <= k < realm.objects.len() && k != object ==> #[trigger]
                later.objects[k] == realm.objects[k]
            &&& forall|i: int|
                0 <= i < entries.len() ==> later.own(this, (#[trigger] entries[i]).0) == Some(
                    (entries[i].1, attributes),
                )
        }),
    decreases entries.len(),
{
    if entries.len() > 0 {
        let front = entries.drop_last();
        lemma_entries_are_there(realm, object, front, attributes);
        let before = realm.with_entries(object, front, attributes);
        lemma_only_that_key(before, object, entries.last().0, entries.last().1, attributes);
        let later = realm.with_entries(object, entries, attributes);
        let this = Value::Object(object as usize);
        assert forall|i: int| 0 <= i < entries.len() implies later.own(
            this,
            (#[trigger] entries[i]).0,
        ) == Some((entries[i].1, attributes)) by {
            if i < front.len() {
                assert(front[i] == entries[i]);
                assert(entries[i].0 != entries[entries.len() - 1].0);
            }
        }
    }
}

/// `console` has five functions, of which `error` and `warn` write to the other stream, and all of
/// them are ordinary properties.
pub proof fn law_what_console_has(realm: RealmView)
    requires
        realm.objects.len() + 6 <= usize::MAX,
    ensures
        ({
            let later = console::installed(realm);
            let plain = Attributes::data(true, true, true);
            later.bound("console"@) matches Some(this) && {
                &&& has_native(later, this, "log"@, Native::Console(Stream::Out), plain)
                &&& has_native(later, this, "error"@, Native::Console(Stream::Error), plain)
                &&& has_native(later, this, "warn"@, Native::Console(Stream::Error), plain)
                &&& has_native(later, this, "info"@, Native::Console(Stream::Out), plain)
                &&& has_native(later, this, "debug"@, Native::Console(Stream::Out), plain)
                &&& later.above(this) == Some(Value::Object(0))
            }
        }),
{
    reveal_strlit("log");
    reveal_strlit("error");
    reveal_strlit("warn");
    reveal_strlit("info");
    reveal_strlit("debug");
    assert("log"@.len() == 3 && "error"@.len() == 5 && "debug"@.len() == 5 && "warn"@.len() == 4
        && "info"@.len() == 4);
    assert("error"@[0] == 'e' && "debug"@[0] == 'd' && "warn"@[0] == 'w' && "info"@[0] == 'i');
    let count = realm.objects.len();
    let made = realm.with_object(
        RealmView::native_object("log"@, Native::Console(Stream::Out), false),
    ).with_object(
        RealmView::native_object("error"@, Native::Console(Stream::Error), false),
    ).with_object(
        RealmView::native_object("warn"@, Native::Console(Stream::Error), false),
    ).with_object(
        RealmView::native_object("info"@, Native::Console(Stream::Out), false),
    ).with_object(
        RealmView::native_object("debug"@, Native::Console(Stream::Out), false),
    ).with_object(RealmView::empty_object(Some(0usize)));
    let entries = seq![
        ("log"@, Value::Object(count as usize)),
        ("error"@, Value::Object((count + 1) as usize)),
        ("warn"@, Value::Object((count + 2) as usize)),
        ("info"@, Value::Object((count + 3) as usize)),
        ("debug"@, Value::Object((count + 4) as usize)),
    ];
    lemma_entries_are_there(made, (count + 5) as int, entries, Attributes::data(true, true, true));
    assert(entries[0].0 == "log"@);
    assert(entries[1].0 == "error"@);
    assert(entries[2].0 == "warn"@);
    assert(entries[3].0 == "info"@);
    assert(entries[4].0 == "debug"@);
}

/// `JSON` has two functions, hidden like those of every namespace object.
pub proof fn law_what_json_has(realm: RealmView)
    requires
        realm.objects.len() + 3 <= usize::MAX,
    ensures
        ({
            let later = json::installed(realm);
            let hidden = Attributes::data(true, false, true);
            later.bound("JSON"@) matches Some(this) && {
                &&& has_native(later, this, "stringify"@, Native::JsonStringify, hidden)
                &&& has_native(later, this, "parse"@, Native::JsonParse, hidden)
                &&& later.above(this) == Some(Value::Object(0))
            }
        }),
{
    reveal_strlit("stringify");
    reveal_strlit("parse");
    assert("stringify"@.len() == 9 && "parse"@.len() == 5);
    let count = realm.objects.len();
    let made = realm.with_object(
        RealmView::native_object("stringify"@, Native::JsonStringify, false),
    ).with_object(RealmView::native_object("parse"@, Native::JsonParse, false)).with_object(
        RealmView::empty_object(Some(0usize)),
    );
    let entries = seq![
        ("stringify"@, Value::Object(count as usize)),
        ("parse"@, Value::Object((count + 1) as usize)),
    ];
    lemma_entries_are_there(made, (count + 2) as int, entries, Attributes::data(true, false, true));
    assert(entries[0].0 == "stringify"@);
    assert(entries[1].0 == "parse"@);
}

/// `performance` has the clock and the date it was started at, which nothing can move.
pub proof fn law_what_performance_has(realm: RealmView, origin: Value)
    requires
        realm.objects.len() + 2 <= usize::MAX,
    ensures
        ({
            let later = performance::installed(realm, origin);
            later.bound("performance"@) matches Some(this) && {
                &&& has_native(
                    later,
                    this,
                    "now"@,
                    Native::PerformanceNow,
                    Attributes::data(true, true, true),
                )
                &&& later.own(this, "timeOrigin"@) == Some(
                    (origin, Attributes::data(false, true, false)),
                )
                &&& later.above(this) == Some(Value::Object(0))
            }
        }),
{
    reveal_strlit("now");
    reveal_strlit("timeOrigin");
    assert("now"@.len() == 3 && "timeOrigin"@.len() == 10);
    let count = realm.objects.len();
    let made = realm.with_object(
        RealmView::native_object("now"@, Native::PerformanceNow, false),
    ).with_object(RealmView::empty_object(Some(0usize)));
    let entries = seq![("now"@, Value::Object(count as usize))];
    let plain = Attributes::data(true, true, true);
    lemma_entries_are_there(made, (count + 1) as int, entries, plain);
    assert(entries[0].0 == "now"@);
    lemma_only_that_key(
        made.with_entries((count + 1) as int, entries, plain),
        (count + 1) as int,
        "timeOrigin"@,
        origin,
        Attributes::data(false, true, false),
    );
    let this = Value::Object((count + 1) as usize);
    let clocked = made.with_entries((count + 1) as int, entries, plain);
    let dated = clocked.with_own(
        (count + 1) as int,
        "timeOrigin"@,
        origin,
        Attributes::data(false, true, false),
    );
    assert(dated.own(this, "now"@) == clocked.own(this, "now"@));
    assert(dated.objects[count as int] == clocked.objects[count as int]);
}

/// `String` is a function, and `undefined`, `NaN` and `Infinity` are the values they name.
pub proof fn law_which_plain_globals_there_are(realm: RealmView)
    requires
        realm.objects.len() < usize::MAX,
        realm.texts.len() + 2 <= usize::MAX,
    ensures
        string::installed(realm).bound("String"@) matches Some(this) && string::installed(
            realm,
        ).native_behind(this) == Some(Native::Text),
        ({
            let later = globals::installed(realm);
            &&& later.bound("undefined"@) == Some(Value::Undefined)
            &&& later.bound("NaN"@) matches Some(Value::Number { bits, text }) && bits
                == 0x7FF8_0000_0000_0000 && later.texts[text as int] == "NaN"@
            &&& later.bound("Infinity"@) matches Some(Value::Number { bits, text }) && bits
                == 0x7FF0_0000_0000_0000 && later.texts[text as int] == "Infinity"@
        }),
{
    reveal_strlit("undefined");
    reveal_strlit("NaN");
    reveal_strlit("Infinity");
    assert("undefined"@.len() == 9 && "NaN"@.len() == 3 && "Infinity"@.len() == 8);
    reveal_with_fuel(RealmView::global_among, 4);
}

/// `Function` is a function on its own prototype, and the prototype of every function names it as its
/// constructor. Nothing can move the one link, and the other is hidden and replaceable.
pub proof fn law_what_function_has(realm: RealmView)
    requires
        realm.fits(),
        realm.objects.len() < usize::MAX,
    ensures
        ({
            let later = function::installed(realm);
            later.bound("Function"@) matches Some(this) && {
                &&& later.native_behind(this) == Some(Native::Function)
                &&& later.above(this) == Some(Value::Object(1))
                &&& later.own(this, "prototype"@) == Some(
                    (Value::Object(1), Attributes::data(false, false, false)),
                )
                &&& later.own(Value::Object(1), "constructor"@) == Some(
                    (this, Attributes::data(true, false, true)),
                )
            }
        }),
{
    let count = realm.objects.len() as int;
    let made = realm.with_object(RealmView::native_object("Function"@, Native::Function, false));
    assert(realm.object_fits(1));
    lemma_only_that_key(
        made,
        count,
        "prototype"@,
        Value::Object(1),
        Attributes::data(false, false, false),
    );
    lemma_only_that_key(
        made.with_own(count, "prototype"@, Value::Object(1), Attributes::data(false, false, false)),
        1,
        "constructor"@,
        Value::Object(count as usize),
        Attributes::data(true, false, true),
    );
}

/// An error constructor and its prototype point at each other, the one link fixed and the other
/// hidden. The prototype has the name of the constructor and an empty message, both hidden, inherits
/// from what it was put below, and is what the engine builds its own errors of that kind from.
pub proof fn law_what_an_error_constructor_has(realm: RealmView, kind: ErrorKind, parent: usize)
    requires
        realm.objects.len() + 2 <= usize::MAX,
        realm.texts.len() + 2 <= usize::MAX,
        realm.error_prototypes.len() == 7,
    ensures
        ({
            let later = error::with_kind(realm, kind, parent);
            let prototype = Value::Object(realm.objects.len() as usize);
            let hidden = Attributes::data(true, false, true);
            later.bound(kind.label()) matches Some(this) && {
                &&& later.native_behind(this) == Some(Native::Error(kind))
                &&& later.own(this, "prototype"@) == Some(
                    (prototype, Attributes::data(false, false, false)),
                )
                &&& later.above(prototype) == Some(Value::Object(parent))
                &&& later.own(prototype, "constructor"@) == Some((this, hidden))
                &&& later.own(prototype, "name"@) matches Some((Value::Text(text), allowed))
                    && allowed == hidden && later.texts[text as int] == kind.label()
                &&& later.own(prototype, "message"@) matches Some((Value::Text(text), allowed))
                    && allowed == hidden && later.texts[text as int].len() == 0
                &&& later.error_prototypes[kind.position()] == Some(realm.objects.len() as usize)
            }
        }),
{
    reveal_strlit("constructor");
    reveal_strlit("name");
    reveal_strlit("message");
    reveal_strlit("");
    assert("constructor"@.len() == 11 && "name"@.len() == 4 && "message"@.len() == 7 && ""@.len()
        == 0);
    let at = realm.objects.len() as int;
    let hidden = Attributes::data(true, false, true);
    let fixed = Attributes::data(false, false, false);
    let prototype = Value::Object(at as usize);
    let constructor = Value::Object((at + 1) as usize);
    let name = Value::Text(realm.texts.len() as usize);
    let message = Value::Text((realm.texts.len() + 1) as usize);
    let made = realm.with_object(RealmView::empty_object(Some(parent))).with_object(
        RealmView::native_object(kind.label(), Native::Error(kind), true),
    );
    lemma_only_that_key(made, at + 1, "prototype"@, prototype, fixed);
    let first = made.with_own(at + 1, "prototype"@, prototype, fixed);
    lemma_only_that_key(first, at, "constructor"@, constructor, hidden);
    let second = first.with_own(at, "constructor"@, constructor, hidden).with_text(kind.label());
    lemma_only_that_key(second, at, "name"@, name, hidden);
    let third = second.with_own(at, "name"@, name, hidden).with_text(""@);
    lemma_only_that_key(third, at, "message"@, message, hidden);
    let fourth = third.with_own(at, "message"@, message, hidden);
    assert(second.own(prototype, "constructor"@) == Some((constructor, hidden)));
    assert(third.own(prototype, "name"@) == Some((name, hidden)));
    assert(third.own(prototype, "constructor"@) == second.with_own(at, "name"@, name, hidden).own(
        prototype,
        "constructor"@,
    ));
    assert(fourth.own(prototype, "constructor"@) == third.own(prototype, "constructor"@));
    assert(fourth.own(prototype, "name"@) == third.own(prototype, "name"@));
    assert(first.own(constructor, "prototype"@) == Some((prototype, fixed)));
    assert(fourth.objects[at + 1] == first.objects[at + 1]);
}

/// Which error constructors there are: `Error` below `Object.prototype` with the one `toString`, and
/// six more below its prototype.
pub proof fn law_which_error_constructors_there_are(realm: RealmView)
    requires
        realm.objects.len() < usize::MAX,
    ensures
        ({
            let base = realm.objects.len() as usize;
            let first = error::with_kind(realm, ErrorKind::Error, 0);
            let method = Value::Object(first.objects.len() as usize);
            let start = first.with_object(
                RealmView::native_object("toString"@, Native::ErrorToString, false),
            ).with_own(base as int, "toString"@, method, Attributes::data(true, false, true));
            error::installed(realm) == error::with_kind(
                error::with_kind(
                    error::with_kind(
                        error::with_kind(
                            error::with_kind(
                                error::with_kind(start, ErrorKind::Type, base),
                                ErrorKind::Range,
                                base,
                            ),
                            ErrorKind::Reference,
                            base,
                        ),
                        ErrorKind::Syntax,
                        base,
                    ),
                    ErrorKind::Eval,
                    base,
                ),
                ErrorKind::Uri,
                base,
            )
        }),
{
    reveal_with_fuel(error::with_kinds, 8);
    let kinds = seq![
        ErrorKind::Type,
        ErrorKind::Range,
        ErrorKind::Reference,
        ErrorKind::Syntax,
        ErrorKind::Eval,
        ErrorKind::Uri,
    ];
    assert(kinds.drop_last() =~= kinds.take(5));
    assert(kinds.take(5).drop_last() =~= kinds.take(4));
    assert(kinds.take(4).drop_last() =~= kinds.take(3));
    assert(kinds.take(3).drop_last() =~= kinds.take(2));
    assert(kinds.take(2).drop_last() =~= kinds.take(1));
    assert(kinds.take(1).drop_last() =~= kinds.take(0));
}

/// Methods that are put on an object are all there, hidden and replaceable, and nothing else that was
/// in the realm is touched.
proof fn lemma_methods_are_there(realm: RealmView, object: int, table: Seq<(Seq<char>, Native)>)
    requires
        0 <= object < realm.objects.len(),
        realm.objects.len() + table.len() <= usize::MAX,
        well_listed(realm.objects[object].properties),
        forall|i: int, j: int|
            0 <= i < j < table.len() ==> (#[trigger] table[i]).0 != (#[trigger] table[j]).0,
    ensures
        ({
            let later = object::with_methods(realm, object, table);
            let this = Value::Object(object as usize);
            &&& later.objects.len() == realm.objects.len() + table.len()
            &&& later.globals == realm.globals
            &&& well_listed(later.objects[object].properties)
            &&& later.objects[object].prototype == realm.objects[object].prototype
            &&& later.objects[object].function == realm.objects[object].function
            &&& forall|k: int| 0 <= k < realm.objects.len() && k != object ==> #[trigger]
                later.objects[k] == realm.objects[k]
            &&& forall|i: int|
                0 <= i < table.len() ==> has_native(
                    later,
                    this,
                    (#[trigger] table[i]).0,
                    table[i].1,
                    Attributes::data(true, false, true),
                )
            &&& forall|i: int|
                0 <= i < table.len() ==> (later.own(this, (#[trigger] table[i]).0) matches Some(
                    (Value::Object(held), _),
                ) && realm.objects.len() <= held < later.objects.len())
        }),
    decreases table.len(),
{
    if table.len() > 0 {
        let front = table.drop_last();
        lemma_methods_are_there(realm, object, front);
        let before = object::with_methods(realm, object, front);
        let made = before.with_object(
            RealmView::native_object(table.last().0, table.last().1, false),
        );
        let function = Value::Object(before.objects.len() as usize);
        let hidden = Attributes::data(true, false, true);
        lemma_only_that_key(made, object, table.last().0, function, hidden);
        let later = object::with_methods(realm, object, table);
        let this = Value::Object(object as usize);
        assert forall|i: int| 0 <= i < table.len() implies has_native(
            later,
            this,
            (#[trigger] table[i]).0,
            table[i].1,
            hidden,
        ) && (later.own(this, table[i].0) matches Some((Value::Object(held), _))
            && realm.objects.len() <= held < later.objects.len()) by {
            if i < front.len() {
                assert(front[i] == table[i]);
                assert(table[i].0 != table[table.len() - 1].0);
                assert(has_native(before, this, front[i].0, front[i].1, hidden));
                assert(before.own(this, table[i].0) == later.own(this, table[i].0));
            }
        }
    }
}

/// `Object` has five functions and every object inherits five, all hidden and replaceable. `Object`
/// and `Object.prototype` point at each other, and nothing can move the link to the prototype.
pub proof fn law_what_object_has(realm: RealmView)
    requires
        realm.fits(),
        realm.objects.len() + 11 <= usize::MAX,
    ensures
        ({
            let later = object::installed(realm);
            let top = Value::Object(0);
            let hidden = Attributes::data(true, false, true);
            later.bound("Object"@) matches Some(this) && {
                &&& later.native_behind(this) == Some(Native::Object)
                &&& has_native(later, this, "create"@, Native::ObjectCreate, hidden)
                &&& has_native(later, this, "getPrototypeOf"@, Native::ObjectGetPrototypeOf, hidden)
                &&& has_native(later, this, "defineProperty"@, Native::ObjectDefineProperty, hidden)
                &&& has_native(
                    later,
                    this,
                    "defineProperties"@,
                    Native::ObjectDefineProperties,
                    hidden,
                )
                &&& has_native(
                    later,
                    this,
                    "getOwnPropertyDescriptor"@,
                    Native::ObjectDescribe,
                    hidden,
                )
                &&& has_native(later, top, "hasOwnProperty"@, Native::HasOwnProperty, hidden)
                &&& has_native(later, top, "isPrototypeOf"@, Native::IsPrototypeOf, hidden)
                &&& has_native(
                    later,
                    top,
                    "propertyIsEnumerable"@,
                    Native::PropertyIsEnumerable,
                    hidden,
                )
                &&& has_native(later, top, "toString"@, Native::ObjectToString, hidden)
                &&& has_native(later, top, "valueOf"@, Native::ObjectValueOf, hidden)
                &&& later.own(this, "prototype"@) == Some(
                    (top, Attributes::data(false, false, false)),
                )
                &&& later.own(top, "constructor"@) == Some((this, hidden))
            }
        }),
{
    reveal_strlit("create");
    reveal_strlit("getPrototypeOf");
    reveal_strlit("defineProperty");
    reveal_strlit("defineProperties");
    reveal_strlit("getOwnPropertyDescriptor");
    reveal_strlit("prototype");
    assert("create"@.len() == 6 && "getPrototypeOf"@.len() == 14 && "defineProperty"@.len() == 14
        && "defineProperties"@.len() == 16 && "getOwnPropertyDescriptor"@.len() == 24
        && "prototype"@.len() == 9);
    assert("getPrototypeOf"@[0] == 'g' && "defineProperty"@[0] == 'd');
    reveal_strlit("hasOwnProperty");
    reveal_strlit("isPrototypeOf");
    reveal_strlit("propertyIsEnumerable");
    reveal_strlit("toString");
    reveal_strlit("valueOf");
    reveal_strlit("constructor");
    assert("hasOwnProperty"@.len() == 14 && "isPrototypeOf"@.len() == 13
        && "propertyIsEnumerable"@.len() == 20 && "toString"@.len() == 8 && "valueOf"@.len() == 7
        && "constructor"@.len() == 11);
    let at = realm.objects.len() as int;
    let hidden = Attributes::data(true, false, true);
    let fixed = Attributes::data(false, false, false);
    let top = Value::Object(0);
    let this = Value::Object(at as usize);
    assert(realm.object_fits(0));
    let made = realm.with_object(RealmView::native_object("Object"@, Native::Object, false));
    let statics = object::statics();
    lemma_methods_are_there(made, at, statics);
    let furnished = object::with_methods(made, at, statics);
    assert(statics[0].0 == "create"@);
    assert(statics[1].0 == "getPrototypeOf"@);
    assert(statics[2].0 == "defineProperty"@);
    assert(statics[3].0 == "defineProperties"@);
    assert(statics[4].0 == "getOwnPropertyDescriptor"@);
    lemma_only_that_key(furnished, at, "prototype"@, top, fixed);
    let linked = furnished.with_own(at, "prototype"@, top, fixed);
    let methods = object::methods();
    lemma_methods_are_there(linked, 0, methods);
    let inherited = object::with_methods(linked, 0, methods);
    assert(methods[0].0 == "hasOwnProperty"@);
    assert(methods[1].0 == "isPrototypeOf"@);
    assert(methods[2].0 == "propertyIsEnumerable"@);
    assert(methods[3].0 == "toString"@);
    assert(methods[4].0 == "valueOf"@);
    lemma_only_that_key(inherited, 0, "constructor"@, this, hidden);
    assert(linked.objects[at] == inherited.objects[at]);
    let done = inherited.with_own(0, "constructor"@, this, hidden);
    assert(done.objects[at] == linked.objects[at]);
    assert(linked.own(this, "create"@) == furnished.own(this, "create"@));
    assert(linked.own(this, "getPrototypeOf"@) == furnished.own(this, "getPrototypeOf"@));
    assert(linked.own(this, "defineProperty"@) == furnished.own(this, "defineProperty"@));
    assert(linked.own(this, "defineProperties"@) == furnished.own(this, "defineProperties"@));
    assert(linked.own(this, "getOwnPropertyDescriptor"@) == furnished.own(
        this,
        "getOwnPropertyDescriptor"@,
    ));
    assert(done.own(top, "hasOwnProperty"@) == inherited.own(top, "hasOwnProperty"@));
    assert(done.own(top, "isPrototypeOf"@) == inherited.own(top, "isPrototypeOf"@));
    assert(done.own(top, "propertyIsEnumerable"@) == inherited.own(top, "propertyIsEnumerable"@));
    assert(done.own(top, "toString"@) == inherited.own(top, "toString"@));
    assert(done.own(top, "valueOf"@) == inherited.own(top, "valueOf"@));
    assert forall|k: int| 1 <= k < furnished.objects.len() && k != at implies #[trigger] done.objects[k]
        == furnished.objects[k] by {
        assert(linked.objects[k] == furnished.objects[k]);
        assert(inherited.objects[k] == linked.objects[k]);
    }
}

/// A new realm has `Object.prototype`, which inherits from nothing, and the prototype of every
/// function below it, and nothing else. A function inherits from the latter, and says so by its name.
pub proof fn law_what_a_new_realm_has(name: Seq<char>, native: Native, constructs: bool)
    ensures
        ({
            let fresh = RealmView::fresh();
            &&& fresh.objects.len() == 2
            &&& fresh.objects[0].prototype is None
            &&& fresh.objects[1].prototype == Some(0usize)
            &&& fresh.objects[0].properties.len() == 0 && fresh.objects[1].properties.len() == 0
            &&& fresh.objects[0].function is None && fresh.objects[1].function is None
            &&& fresh.globals.len() == 0 && fresh.output.len() == 0 && fresh.texts.len() == 0
            &&& forall|i: int| 0 <= i < 7 ==> (#[trigger] fresh.error_prototypes[i]) is None
            &&& !fresh.constructing
            &&& fresh.clock == Value::Undefined
        }),
        ({
            let made = RealmView::native_object(name, native, constructs);
            &&& made.prototype == Some(1usize)
            &&& made.properties.len() == 0
            &&& made.function matches Some(function) && function.name == name && function.native
                == Some(native) && function.constructs == constructs
            &&& made.inspected == "[Function: "@ + name + "]"@
        }),
        ({
            let made = RealmView::closure_object(name);
            &&& made.prototype == Some(1usize)
            &&& made.properties.len() == 0
            &&& made.function matches Some(function) && function.name == name && function.native
                == None::<Native> && function.constructs
            &&& made.inspected == if name.len() == 0 {
                "[Function (anonymous)]"@
            } else {
                "[Function: "@ + name + "]"@
            }
        }),
{
}

/// Putting properties on an object binds nothing.
proof fn lemma_entries_bind_nothing(
    realm: RealmView,
    object: int,
    entries: Seq<(Seq<char>, Value)>,
    attributes: Attributes,
)
    ensures
        realm.with_entries(object, entries, attributes).globals == realm.globals,
        0 <= object < realm.objects.len() ==> realm.with_entries(
            object,
            entries,
            attributes,
        ).objects.len() == realm.objects.len(),
    decreases entries.len(),
{
    if entries.len() > 0 {
        lemma_entries_bind_nothing(realm, object, entries.drop_last(), attributes);
    }
}

/// Each builtin of the standard library binds its own names behind those that were bound before.
pub proof fn law_which_names_are_bound(realm: RealmView, origin: Value)
    requires
        realm.objects.len() + 6 <= usize::MAX,
    ensures
        globals::installed(realm).objects.len() == realm.objects.len(),
        console::installed(realm).objects.len() == realm.objects.len() + 6,
        performance::installed(realm, origin).objects.len() == realm.objects.len() + 2,
        string::installed(realm).objects.len() == realm.objects.len() + 1,
        globals::installed(realm).globals.len() == realm.globals.len() + 3,
        globals::installed(realm).globals[realm.globals.len() as int].0 == "undefined"@,
        globals::installed(realm).globals[realm.globals.len() as int + 1].0 == "NaN"@,
        globals::installed(realm).globals[realm.globals.len() as int + 2].0 == "Infinity"@,
        console::installed(realm).globals == realm.globals.push(
            ("console"@, Value::Object((realm.objects.len() + 5) as usize)),
        ),
        performance::installed(realm, origin).globals == realm.globals.push(
            ("performance"@, Value::Object((realm.objects.len() + 1) as usize)),
        ),
        string::installed(realm).globals == realm.globals.push(
            ("String"@, Value::Object(realm.objects.len() as usize)),
        ),
        json::installed(realm).globals == realm.globals.push(
            ("JSON"@, Value::Object((realm.objects.len() + 2) as usize)),
        ),
        function::installed(realm).globals == realm.globals.push(
            ("Function"@, Value::Object(realm.objects.len() as usize)),
        ),
{
    let count = realm.objects.len();
    let plain = Attributes::data(true, true, true);
    let logs = realm.with_object(
        RealmView::native_object("log"@, Native::Console(Stream::Out), false),
    ).with_object(
        RealmView::native_object("error"@, Native::Console(Stream::Error), false),
    ).with_object(
        RealmView::native_object("warn"@, Native::Console(Stream::Error), false),
    ).with_object(
        RealmView::native_object("info"@, Native::Console(Stream::Out), false),
    ).with_object(
        RealmView::native_object("debug"@, Native::Console(Stream::Out), false),
    ).with_object(RealmView::empty_object(Some(0usize)));
    lemma_entries_bind_nothing(
        logs,
        (count + 5) as int,
        seq![
            ("log"@, Value::Object(count as usize)),
            ("error"@, Value::Object((count + 1) as usize)),
            ("warn"@, Value::Object((count + 2) as usize)),
            ("info"@, Value::Object((count + 3) as usize)),
            ("debug"@, Value::Object((count + 4) as usize)),
        ],
        plain,
    );
    let timed = realm.with_object(
        RealmView::native_object("now"@, Native::PerformanceNow, false),
    ).with_object(RealmView::empty_object(Some(0usize)));
    lemma_entries_bind_nothing(
        timed,
        (count + 1) as int,
        seq![("now"@, Value::Object(count as usize))],
        plain,
    );
    let written = realm.with_object(
        RealmView::native_object("stringify"@, Native::JsonStringify, false),
    ).with_object(RealmView::native_object("parse"@, Native::JsonParse, false)).with_object(
        RealmView::empty_object(Some(0usize)),
    );
    lemma_entries_bind_nothing(
        written,
        (count + 2) as int,
        seq![
            ("stringify"@, Value::Object(count as usize)),
            ("parse"@, Value::Object((count + 1) as usize)),
        ],
        Attributes::data(true, false, true),
    );
}

} // verus!
