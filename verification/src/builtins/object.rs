//! `Object`, and the statics of it that describe and reach a prototype chain.
//!
//! # What is here
//!
//! `Object` itself as a callable function, `Object.prototype`, `Object.create`,
//! `Object.getPrototypeOf`, `Object.defineProperty`, `Object.defineProperties` and
//! `Object.getOwnPropertyDescriptor`, and on the prototype itself `constructor`, `hasOwnProperty`,
//! `isPrototypeOf`, `propertyIsEnumerable`, `toString` and `valueOf`.
//!
//! # Defining a property is not assigning to one
//!
//! Assignment asks the prototype chain whether the write is allowed and a definition does not,
//! assignment cannot change what a property is allowed to do and a definition can, and a definition
//! leaves out any flag it is not given rather than defaulting it the way a fresh property does.
//!
//! A configurable property can be redefined however the caller likes, and a non configurable one can
//! only have its value changed, only if it is writable, and can only ever become less permissive.

use vstd::prelude::*;

use crate::builtins::convert::{object_tag, text_of, to_text};
use crate::builtins::realm::{
    arg, argument, entry_views, find, lemma_find_after_define, lemma_found_is_there,
    lemma_growing_is_reflexive, lemma_growing_is_transitive, lemma_growing_keeps_values,
    lemma_with_property_is_well_listed, met_an_accessor, outcome, receiver_of, this_value,
    well_listed, Property, PropertyView, Realm, RealmView,
};
use crate::builtins::value::{Attributes, ErrorView, Native, RuntimeError, Value};

verus! {

/// The statics of `Object`.
pub open spec fn statics() -> Seq<(Seq<char>, Native)> {
    seq![
        ("create"@, Native::ObjectCreate),
        ("getPrototypeOf"@, Native::ObjectGetPrototypeOf),
        ("defineProperty"@, Native::ObjectDefineProperty),
        ("defineProperties"@, Native::ObjectDefineProperties),
        ("getOwnPropertyDescriptor"@, Native::ObjectDescribe),
    ]
}

/// The methods every object inherits.
pub open spec fn methods() -> Seq<(Seq<char>, Native)> {
    seq![
        ("hasOwnProperty"@, Native::HasOwnProperty),
        ("isPrototypeOf"@, Native::IsPrototypeOf),
        ("propertyIsEnumerable"@, Native::PropertyIsEnumerable),
        ("toString"@, Native::ObjectToString),
        ("valueOf"@, Native::ObjectValueOf),
    ]
}

/// A realm with functions written in Rust put on an object, hidden and replaceable like every method
/// of the standard library.
pub open spec fn with_methods(
    realm: RealmView,
    object: int,
    table: Seq<(Seq<char>, Native)>,
) -> RealmView
    decreases table.len(),
{
    if table.len() == 0 {
        realm
    } else {
        let before = with_methods(realm, object, table.drop_last());
        before.with_object(RealmView::native_object(table.last().0, table.last().1, false)).with_own(
            object,
            table.last().0,
            Value::Object(before.objects.len() as usize),
            Attributes::data(true, false, true),
        )
    }
}

/// A realm with `Object` in it.
pub open spec fn installed(realm: RealmView) -> RealmView {
    let object = realm.objects.len() as int;
    let made = realm.with_object(RealmView::native_object("Object"@, Native::Object, false));
    let furnished = with_methods(made, object, statics());
    let linked = furnished.with_own(
        object,
        "prototype"@,
        Value::Object(0),
        Attributes::data(false, false, false),
    );
    let inherited = with_methods(linked, 0, methods());
    inherited.with_own(
        0,
        "constructor"@,
        Value::Object(object as usize),
        Attributes::data(true, false, true),
    ).with_global("Object"@, Value::Object(object as usize))
}

/// Put functions written in Rust on an object.
pub(crate) fn install_methods(
    realm: &mut Realm,
    object: Value,
    table: &[(&'static str, Native)],
)
    requires
        old(realm)@.fits(),
        old(realm)@.knows(object),
        object is Object,
    ensures
        final(realm)@.fits(),
        old(realm)@.grows_into(final(realm)@),
        final(realm)@ == with_methods(
            old(realm)@,
            object->Object_0 as int,
            table_views(table@),
        ),
{
    let ghost before = realm@;
    let ghost all = table_views(table@);
    let mut at: usize = 0;
    proof {
        lemma_growing_is_reflexive(before);
        assert(all.take(0) =~= Seq::<(Seq<char>, Native)>::empty());
    }
    while at < table.len()
        invariant
            at <= table@.len(),
            all == table_views(table@),
            realm@.fits(),
            before.grows_into(realm@),
            before.knows(object),
            object is Object,
            realm@ == with_methods(before, object->Object_0 as int, all.take(at as int)),
        decreases table@.len() - at,
    {
        let (name, native) = table[at];
        let ghost held = realm@;
        proof {
            let next = all.take(at + 1);
            assert(next.drop_last() =~= all.take(at as int));
            assert(next.last() == (name@, native));
        }
        let function = realm.native_function(name, native);
        let ghost made = realm@;
        proof {
            lemma_growing_is_transitive(before, held, made);
            lemma_growing_keeps_values(before, made, object);
        }
        realm.define_property(object, name, function, Attributes::builtin());
        proof {
            lemma_growing_is_transitive(before, made, realm@);
        }
        at = at + 1;
    }
    assert(all.take(at as int) =~= all);
}

/// A table of functions with their names as sequences of characters.
pub open spec fn table_views(table: Seq<(&'static str, Native)>) -> Seq<(Seq<char>, Native)> {
    Seq::new(table.len(), |i: int| (table[i].0@, table[i].1))
}

/// Put `Object` in the global scope.
pub fn install(realm: &mut Realm)
    requires
        old(realm)@.fits(),
    ensures
        final(realm)@.fits(),
        old(realm)@.grows_into(final(realm)@),
        final(realm)@ == installed(old(realm)@),
{
    let ghost before = realm@;
    let prototype = realm.object_prototype();
    let object = realm.native_function("Object", Native::Object);
    let ghost made = realm@;
    let statics = [
        ("create", Native::ObjectCreate),
        ("getPrototypeOf", Native::ObjectGetPrototypeOf),
        ("defineProperty", Native::ObjectDefineProperty),
        ("defineProperties", Native::ObjectDefineProperties),
        ("getOwnPropertyDescriptor", Native::ObjectDescribe),
    ];
    assert(table_views(statics@) =~= self::statics());
    install_methods(realm, object, &statics);
    let ghost furnished = realm@;
    proof {
        lemma_growing_is_transitive(before, made, furnished);
        lemma_growing_keeps_values(made, furnished, object);
    }
    // `Object.prototype` is the one property here that is none of the three things. Nothing can
    // rewrite it, hide it or remove it.
    realm.define_property(object, "prototype", prototype, Attributes::none());
    let ghost linked = realm@;
    proof {
        lemma_growing_is_transitive(before, furnished, linked);
        lemma_growing_keeps_values(furnished, linked, object);
    }
    install_prototype(realm, prototype);
    let ghost inherited = realm@;
    proof {
        lemma_growing_is_transitive(before, linked, inherited);
        lemma_growing_keeps_values(linked, inherited, object);
    }
    // Every object in the realm inherits `constructor` from here, so `({}).constructor === Object`.
    realm.define_property(prototype, "constructor", object, Attributes::builtin());
    let ghost constructed = realm@;
    proof {
        lemma_growing_is_transitive(before, inherited, constructed);
        lemma_growing_keeps_values(inherited, constructed, object);
    }
    realm.define_global("Object", object);
    proof {
        lemma_growing_is_transitive(before, constructed, realm@);
    }
}

/// Put the methods every object inherits onto `Object.prototype`.
///
/// All of them hidden, writable and configurable: these live at the top of nearly every prototype
/// chain in the realm, so one that was not hidden would appear in every walk over every object.
fn install_prototype(realm: &mut Realm, prototype: Value)
    requires
        old(realm)@.fits(),
        prototype == Value::Object(0),
    ensures
        final(realm)@.fits(),
        old(realm)@.grows_into(final(realm)@),
        final(realm)@ == with_methods(old(realm)@, 0, methods()),
{
    let methods = [
        ("hasOwnProperty", Native::HasOwnProperty),
        ("isPrototypeOf", Native::IsPrototypeOf),
        ("propertyIsEnumerable", Native::PropertyIsEnumerable),
        ("toString", Native::ObjectToString),
        ("valueOf", Native::ObjectValueOf),
    ];
    assert(table_views(methods@) =~= self::methods());
    install_methods(realm, prototype, &methods);
}

/// The error for a value that cannot be converted to an object.
pub open spec fn not_an_object() -> ErrorView {
    ErrorView::Type("Cannot convert undefined or null to object"@)
}

/// What `Object(value)` answers, and the realm after it.
pub open spec fn called(realm: RealmView, args: Seq<Value>) -> (
    Result<Value, ErrorView>,
    RealmView,
) {
    let value = argument(args, 0);
    if value == Value::Undefined || value == Value::Null {
        realm.object_below(Value::Object(0))
    } else if value is Object {
        (Ok(value), realm)
    } else {
        (
            Err(
                ErrorView::Unsupported(
                    "Object("@ + realm.display_text(value)
                        + ") is not supported yet, because boxing a primitive needs the wrapper prototypes"@,
                ),
            ),
            realm,
        )
    }
}

/// `Object(value)`, which is `ToObject` with the empty case filled in.
///
/// `Object()` and `Object(undefined)` and `Object(null)` all make a new empty object, and anything
/// that is already an object, function included, is handed straight back rather than copied. What is
/// left is a primitive, which boxes into a wrapper that does not exist yet and refuses by name.
pub fn call(realm: &mut Realm, args: &[Value]) -> (answer: Result<Value, RuntimeError>)
    requires
        old(realm)@.fits(),
        old(realm)@.knows_all(args@),
    ensures
        final(realm)@.fits(),
        old(realm)@.grows_into(final(realm)@),
        (outcome(answer), final(realm)@) == called(old(realm)@, args@),
        answer matches Ok(value) ==> final(realm)@.knows(value),
{
    let value = arg(args, 0);
    proof {
        lemma_growing_is_reflexive(realm@);
    }
    if value.is_nullish() {
        let prototype = realm.object_prototype();
        return realm.new_object_with_prototype(prototype);
    }
    if realm.is_ordinary_object(value) || realm.is_callable(value) {
        return Ok(value);
    }
    let what = realm.display(value);
    let mut message = "Object(".to_owned();
    message.append(what.as_str());
    message.append(
        ") is not supported yet, because boxing a primitive needs the wrapper prototypes",
    );
    Err(RuntimeError::Unsupported(message))
}

/// The object a method on `Object.prototype` was called on, or why there is not one.
pub open spec fn subject(realm: RealmView, receiver: Option<Value>, name: Seq<char>) -> Result<
    Value,
    ErrorView,
> {
    match receiver_of(receiver, name) {
        Err(error) => Err(error),
        Ok(value) => if value == Value::Undefined || value == Value::Null {
            Err(not_an_object())
        } else if value is Object {
            Ok(value)
        } else {
            Err(
                ErrorView::Unsupported(
                    name
                        + " is not supported yet for a value that is not an ordinary object, because it needs the wrapper prototypes"@,
                ),
            )
        },
    }
}

/// The object a method on `Object.prototype` was called on, or why there is not one.
///
/// Every one of these methods begins with `ToObject(this)`, and that step has three outcomes.
/// `undefined` and `null` throw. An object is itself, and a function is an object. Everything else
/// boxes into a wrapper, and there are no wrapper prototypes yet, so it refuses by name.
fn called_on(realm: &Realm, receiver: Option<Value>, name: &str) -> (answer: Result<
    Value,
    RuntimeError,
>)
    requires
        realm@.fits(),
        receiver matches Some(value) ==> realm@.knows(value),
    ensures
        outcome(answer) == subject(realm@, receiver, name@),
        answer matches Ok(value) ==> realm@.knows(value) && value is Object,
{
    let value = match this_value(receiver, name) {
        Ok(value) => value,
        Err(error) => {
            return Err(error);
        },
    };
    if value.is_nullish() {
        return Err(RuntimeError::of_type("Cannot convert undefined or null to object"));
    }
    if !realm.is_ordinary_object(value) && !realm.is_callable(value) {
        let mut message = name.to_owned();
        message.append(
            " is not supported yet for a value that is not an ordinary object, because it needs the wrapper prototypes",
        );
        return Err(RuntimeError::Unsupported(message));
    }
    Ok(value)
}

/// What `hasOwnProperty` answers.
pub open spec fn owns(realm: RealmView, receiver: Option<Value>, args: Seq<Value>) -> Result<
    Value,
    ErrorView,
> {
    match text_of(realm, argument(args, 0)) {
        Err(error) => Err(error),
        Ok(key) => match subject(realm, receiver, "Object.prototype.hasOwnProperty"@) {
            Err(error) => Err(error),
            Ok(object) => Ok(Value::Bool(realm.own(object, key) is Some)),
        },
    }
}

/// `Object.prototype.hasOwnProperty(key)`.
///
/// Own and not inherited, which is the whole reason the method exists.
pub fn has_own_property(realm: &Realm, receiver: Option<Value>, args: &[Value]) -> (answer: Result<
    Value,
    RuntimeError,
>)
    requires
        realm@.fits(),
        realm@.knows_all(args@),
        receiver matches Some(value) ==> realm@.knows(value),
    ensures
        outcome(answer) == owns(realm@, receiver, args@),
{
    let key = match to_text(realm, arg(args, 0)) {
        Ok(key) => key,
        Err(error) => {
            return Err(error);
        },
    };
    let object = match called_on(realm, receiver, "Object.prototype.hasOwnProperty") {
        Ok(object) => object,
        Err(error) => {
            return Err(error);
        },
    };
    Ok(Value::Bool(realm.own_descriptor(object, key.as_str()).is_some()))
}

/// What `isPrototypeOf` answers.
pub open spec fn is_prototype(
    realm: RealmView,
    receiver: Option<Value>,
    args: Seq<Value>,
) -> Result<Value, ErrorView> {
    match subject(realm, receiver, "Object.prototype.isPrototypeOf"@) {
        Err(error) => Err(error),
        Ok(object) => Ok(
            Value::Bool(
                match argument(args, 0) {
                    Value::Object(below) => realm.is_above(object, below as int),
                    _ => false,
                },
            ),
        ),
    }
}

/// `Object.prototype.isPrototypeOf(value)`.
///
/// Anywhere on the chain rather than immediately above, and the value itself does not count. Anything
/// that is not an object answers false rather than throwing, because a primitive has no chain to be
/// on.
pub fn is_prototype_of(realm: &Realm, receiver: Option<Value>, args: &[Value]) -> (answer: Result<
    Value,
    RuntimeError,
>)
    requires
        realm@.fits(),
        realm@.knows_all(args@),
        receiver matches Some(value) ==> realm@.knows(value),
    ensures
        outcome(answer) == is_prototype(realm@, receiver, args@),
{
    let object = match called_on(realm, receiver, "Object.prototype.isPrototypeOf") {
        Ok(object) => object,
        Err(error) => {
            return Err(error);
        },
    };
    Ok(
        Value::Bool(
            match arg(args, 0) {
                Value::Object(below) => realm.is_above(object, below),
                _ => false,
            },
        ),
    )
}

/// What `propertyIsEnumerable` answers.
pub open spec fn shows(realm: RealmView, receiver: Option<Value>, args: Seq<Value>) -> Result<
    Value,
    ErrorView,
> {
    match text_of(realm, argument(args, 0)) {
        Err(error) => Err(error),
        Ok(key) => match subject(realm, receiver, "Object.prototype.propertyIsEnumerable"@) {
            Err(error) => Err(error),
            Ok(object) => Ok(
                Value::Bool(
                    match realm.own(object, key) {
                        Some((_, attributes)) => attributes.enumerable,
                        None => false,
                    },
                ),
            ),
        },
    }
}

/// `Object.prototype.propertyIsEnumerable(key)`.
///
/// A property that is hidden and a property that is not there both say false.
pub fn property_is_enumerable(
    realm: &Realm,
    receiver: Option<Value>,
    args: &[Value],
) -> (answer: Result<Value, RuntimeError>)
    requires
        realm@.fits(),
        realm@.knows_all(args@),
        receiver matches Some(value) ==> realm@.knows(value),
    ensures
        outcome(answer) == shows(realm@, receiver, args@),
{
    let key = match to_text(realm, arg(args, 0)) {
        Ok(key) => key,
        Err(error) => {
            return Err(error);
        },
    };
    let object = match called_on(realm, receiver, "Object.prototype.propertyIsEnumerable") {
        Ok(object) => object,
        Err(error) => {
            return Err(error);
        },
    };
    match realm.own_descriptor(object, key.as_str()) {
        Some((_, attributes)) => Ok(Value::Bool(attributes.enumerable)),
        None => Ok(Value::Bool(false)),
    }
}

/// The tag `Object.prototype.toString` puts on a value.
pub open spec fn tagged(realm: RealmView, receiver: Option<Value>) -> Result<Seq<char>, ErrorView> {
    match receiver_of(receiver, "Object.prototype.toString"@) {
        Err(error) => Err(error),
        Ok(Value::Undefined) => Ok("[object Undefined]"@),
        Ok(Value::Null) => Ok("[object Null]"@),
        Ok(Value::Object(object)) => Ok(object_tag(realm, Value::Object(object))),
        Ok(_) => Err(
            ErrorView::Unsupported(
                "Object.prototype.toString is not supported yet for a primitive, because it needs the wrapper prototypes"@,
            ),
        ),
    }
}

/// An answer that is text, and the realm that holds it.
pub open spec fn answered(realm: RealmView, text: Result<Seq<char>, ErrorView>) -> (
    Result<Value, ErrorView>,
    RealmView,
) {
    match text {
        Ok(text) => (Ok(Value::Text(realm.texts.len() as usize)), realm.with_text(text)),
        Err(error) => (Err(error), realm),
    }
}

/// `Object.prototype.toString()`, which is where `[object Object]` comes from.
///
/// This one answers for `undefined` and `null` instead of throwing the way every other method on this
/// prototype does.
pub fn to_string(realm: &mut Realm, receiver: Option<Value>) -> (answer: Result<
    Value,
    RuntimeError,
>)
    requires
        old(realm)@.fits(),
        receiver matches Some(value) ==> old(realm)@.knows(value),
    ensures
        final(realm)@.fits(),
        old(realm)@.grows_into(final(realm)@),
        (outcome(answer), final(realm)@) == answered(old(realm)@, tagged(old(realm)@, receiver)),
        answer matches Ok(value) ==> final(realm)@.knows(value),
{
    proof {
        lemma_growing_is_reflexive(realm@);
    }
    let value = match this_value(receiver, "Object.prototype.toString") {
        Ok(value) => value,
        Err(error) => {
            return Err(error);
        },
    };
    let tag: &'static str = if value.is_undefined() {
        "[object Undefined]"
    } else if value.is_null() {
        "[object Null]"
    } else if realm.is_callable(value) {
        "[object Function]"
    } else if realm.is_ordinary_object(value) {
        "[object Object]"
    } else {
        // A primitive, which boxes into a wrapper whose tag is the wrapper's name.
        return Err(
            RuntimeError::unsupported(
                "Object.prototype.toString is not supported yet for a primitive, because it needs the wrapper prototypes",
            ),
        );
    };
    Ok(realm.new_string(tag))
}

/// `Object.prototype.valueOf()`, which for an object is the object.
pub fn value_of(realm: &Realm, receiver: Option<Value>) -> (answer: Result<Value, RuntimeError>)
    requires
        realm@.fits(),
        receiver matches Some(value) ==> realm@.knows(value),
    ensures
        outcome(answer) == subject(realm@, receiver, "Object.prototype.valueOf"@),
        answer matches Ok(value) ==> realm@.knows(value),
{
    called_on(realm, receiver, "Object.prototype.valueOf")
}

/// What `Object.getPrototypeOf` answers.
pub open spec fn prototype_answer(realm: RealmView, args: Seq<Value>) -> Result<Value, ErrorView> {
    let value = argument(args, 0);
    if value == Value::Undefined || value == Value::Null {
        Err(not_an_object())
    } else {
        match realm.above(value) {
            Some(prototype) => Ok(prototype),
            None => Err(
                ErrorView::Unsupported(
                    "Object.getPrototypeOf is not supported yet for a primitive, because it needs the wrapper prototypes"@,
                ),
            ),
        }
    }
}

/// `Object.getPrototypeOf(value)`.
///
/// An object answers with its prototype or with `null`, and a function is an object. `undefined` and
/// `null` throw, because there is no object to ask. Every other primitive refuses by name instead of
/// saying `null` and being believed.
pub fn get_prototype_of(realm: &Realm, args: &[Value]) -> (answer: Result<Value, RuntimeError>)
    requires
        realm@.fits(),
        realm@.knows_all(args@),
    ensures
        outcome(answer) == prototype_answer(realm@, args@),
        answer matches Ok(value) ==> realm@.knows(value),
{
    let value = arg(args, 0);
    if value.is_nullish() {
        return Err(RuntimeError::of_type("Cannot convert undefined or null to object"));
    }
    match realm.prototype_of(value) {
        Some(prototype) => Ok(prototype),
        None => Err(
            RuntimeError::unsupported(
                "Object.getPrototypeOf is not supported yet for a primitive, because it needs the wrapper prototypes",
            ),
        ),
    }
}

/// A property descriptor as it was written, with the fields that were left out still left out.
///
/// `{}` and `{value: undefined}` are different descriptors, `{writable: false}` against an existing
/// property changes one flag and leaves two alone, and the same descriptor against a name that does
/// not exist yet creates a property that is not writable, not enumerable and not configurable.
#[derive(Clone, Copy, Debug, PartialEq, Eq, Structural)]
pub struct Descriptor {
    /// The `value` field.
    pub value: Option<Value>,
    /// The `get` field.
    pub getter: Option<Value>,
    /// The `set` field.
    pub setter: Option<Value>,
    /// The `writable` field.
    pub writable: Option<bool>,
    /// The `enumerable` field.
    pub enumerable: Option<bool>,
    /// The `configurable` field.
    pub configurable: Option<bool>,
}

/// A flag of a descriptor, or what it is when it was left out.
pub open spec fn flag_or(flag: Option<bool>, missing: bool) -> bool {
    match flag {
        Some(flag) => flag,
        None => missing,
    }
}

fn or_flag(flag: Option<bool>, missing: bool) -> (answer: bool)
    ensures
        answer == flag_or(flag, missing),
{
    match flag {
        Some(flag) => flag,
        None => missing,
    }
}

/// A half of an accessor descriptor as something to store, where `undefined` means absent.
pub open spec fn stored_half(value: Option<Value>) -> Option<Value> {
    if value == Some(Value::Undefined) {
        None
    } else {
        value
    }
}

impl Descriptor {
    /// Whether this descriptor describes an accessor.
    ///
    /// Mentioning either half is enough, and mentioning it as `undefined` still counts.
    pub open spec fn wants_accessor(self) -> bool {
        self.getter is Some || self.setter is Some
    }

    /// Whether this descriptor describes a data property. Mentioning `writable` is enough, because a
    /// data property is the only kind that has one.
    pub open spec fn wants_data(self) -> bool {
        self.value is Some || self.writable is Some
    }

    /// Whether every value the descriptor mentions is one of the realm's.
    pub open spec fn fits(self, realm: RealmView) -> bool {
        &&& self.value matches Some(value) ==> realm.knows(value)
        &&& self.getter matches Some(value) ==> realm.knows(value)
        &&& self.setter matches Some(value) ==> realm.knows(value)
    }

    fn is_accessor(self) -> (answer: bool)
        ensures
            answer == self.wants_accessor(),
    {
        self.getter.is_some() || self.setter.is_some()
    }

    fn is_data(self) -> (answer: bool)
        ensures
            answer == self.wants_data(),
    {
        self.value.is_some() || self.writable.is_some()
    }
}

/// A field of a descriptor as a flag, converted rather than having to be a boolean.
pub open spec fn as_flag(realm: RealmView, field: Option<Value>) -> Option<bool> {
    match field {
        Some(value) => Some(realm.truthy(value)),
        None => None,
    }
}

/// The refusal for a half of an accessor that is neither a function nor `undefined`, if it is one.
pub open spec fn half_fault(realm: RealmView, half: Option<Value>, which: Seq<char>) -> Option<
    ErrorView,
> {
    match half {
        Some(value) if value != Value::Undefined && !realm.calls(value) => Some(
            ErrorView::Type(which + " must be a function: "@ + realm.display_text(value)),
        ),
        _ => None,
    }
}

/// The fields of a descriptor, when there is nothing wrong with them together.
pub open spec fn checked(realm: RealmView, descriptor: Descriptor) -> Result<Descriptor, ErrorView> {
    if descriptor.wants_accessor() && descriptor.wants_data() {
        Err(
            ErrorView::Type(
                "Invalid property descriptor. Cannot both specify accessors and a value or writable attribute, #<Object>"@,
            ),
        )
    } else {
        match half_fault(realm, descriptor.getter, "Getter"@) {
            Some(error) => Err(error),
            None => match half_fault(realm, descriptor.setter, "Setter"@) {
                Some(error) => Err(error),
                None => Ok(descriptor),
            },
        }
    }
}

/// The descriptor an object is, read through its prototype chain.
pub open spec fn descriptor_of(realm: RealmView, value: Value) -> Result<Descriptor, ErrorView> {
    if !realm.is_plain_object(value) {
        Err(
            ErrorView::Type(
                "Property description must be an object: "@ + realm.display_text(value),
            ),
        )
    } else {
        match (
            realm.looked_up(value, "get"@),
            realm.looked_up(value, "set"@),
            realm.looked_up(value, "value"@),
            realm.looked_up(value, "writable"@),
            realm.looked_up(value, "enumerable"@),
            realm.looked_up(value, "configurable"@),
        ) {
            (Err(error), _, _, _, _, _) => Err(error),
            (_, Err(error), _, _, _, _) => Err(error),
            (_, _, Err(error), _, _, _) => Err(error),
            (_, _, _, Err(error), _, _) => Err(error),
            (_, _, _, _, Err(error), _) => Err(error),
            (_, _, _, _, _, Err(error)) => Err(error),
            (
                Ok(getter),
                Ok(setter),
                Ok(held),
                Ok(writable),
                Ok(enumerable),
                Ok(configurable),
            ) => checked(
                realm,
                Descriptor {
                    value: held,
                    getter,
                    setter,
                    writable: as_flag(realm, writable),
                    enumerable: as_flag(realm, enumerable),
                    configurable: as_flag(realm, configurable),
                },
            ),
        }
    }
}

/// A field of a descriptor as a flag.
fn flag_of(realm: &Realm, field: Option<Value>) -> (flag: Option<bool>)
    requires
        field matches Some(value) ==> realm@.knows(value),
    ensures
        flag == as_flag(realm@, field),
{
    match field {
        Some(value) => Some(realm.is_truthy(value)),
        None => None,
    }
}

/// Read a descriptor object into the fields it actually mentions.
///
/// The reads walk the prototype chain, so `Object.create({value: 7})` is a descriptor that says
/// `value` is seven.
fn read_descriptor(realm: &Realm, value: Value) -> (descriptor: Result<Descriptor, RuntimeError>)
    requires
        realm@.fits(),
        realm@.knows(value),
    ensures
        outcome(descriptor) == descriptor_of(realm@, value),
        descriptor matches Ok(read) ==> read.fits(realm@),
{
    if !realm.is_ordinary_object(value) {
        let mut message = "Property description must be an object: ".to_owned();
        let what = realm.display(value);
        message.append(what.as_str());
        return Err(RuntimeError::Type(message));
    }
    let getter = match realm.lookup(value, "get") {
        Ok(field) => field,
        Err(error) => {
            return Err(error);
        },
    };
    let setter = match realm.lookup(value, "set") {
        Ok(field) => field,
        Err(error) => {
            return Err(error);
        },
    };
    let held = match realm.lookup(value, "value") {
        Ok(field) => field,
        Err(error) => {
            return Err(error);
        },
    };
    let writable = match realm.lookup(value, "writable") {
        Ok(field) => field,
        Err(error) => {
            return Err(error);
        },
    };
    let enumerable = match realm.lookup(value, "enumerable") {
        Ok(field) => field,
        Err(error) => {
            return Err(error);
        },
    };
    let configurable = match realm.lookup(value, "configurable") {
        Ok(field) => field,
        Err(error) => {
            return Err(error);
        },
    };
    // A flag is whatever it is, converted. `{enumerable: 'yes'}` makes an enumerable property and
    // `{writable: 0}` makes a read only one.
    let descriptor = Descriptor {
        value: held,
        getter,
        setter,
        writable: flag_of(realm, writable),
        enumerable: flag_of(realm, enumerable),
        configurable: flag_of(realm, configurable),
    };
    if descriptor.is_accessor() && descriptor.is_data() {
        return Err(
            RuntimeError::of_type(
                "Invalid property descriptor. Cannot both specify accessors and a value or writable attribute, #<Object>",
            ),
        );
    }
    // A half that is present has to be callable or `undefined`, and the two halves are checked in
    // this order because a descriptor with both wrong reports the getter.
    match callable_or_absent(realm, descriptor.getter, "Getter") {
        Ok(()) => {},
        Err(error) => {
            return Err(error);
        },
    }
    match callable_or_absent(realm, descriptor.setter, "Setter") {
        Ok(()) => {},
        Err(error) => {
            return Err(error);
        },
    }
    Ok(descriptor)
}

/// Reject a `get` or a `set` that is neither a function nor `undefined`.
///
/// `undefined` is allowed and means the half is absent, which is not the same as the field being left
/// out. `null` is not allowed.
fn callable_or_absent(realm: &Realm, half: Option<Value>, which: &str) -> (verdict: Result<
    (),
    RuntimeError,
>)
    requires
        half matches Some(value) ==> realm@.knows(value),
    ensures
        verdict is Ok <==> half_fault(realm@, half, which@) is None,
        verdict matches Err(error) ==> half_fault(realm@, half, which@) == Some(error@),
{
    let value = match half {
        Some(value) => value,
        None => {
            return Ok(());
        },
    };
    if value.is_undefined() || realm.is_callable(value) {
        return Ok(());
    }
    let mut message = which.to_owned();
    message.append(" must be a function: ");
    let what = realm.display(value);
    message.append(what.as_str());
    Err(RuntimeError::Type(message))
}

/// A half of an accessor descriptor as something to store, where `undefined` means absent.
fn half(value: Option<Value>) -> (stored: Option<Value>)
    ensures
        stored == stored_half(value),
{
    match value {
        Some(value) => if value.is_undefined() {
            None
        } else {
            Some(value)
        },
        None => None,
    }
}

/// Whether a descriptor would turn a data property into an accessor or the other way round.
pub open spec fn turns(descriptor: Descriptor, attributes: Attributes) -> bool {
    ||| descriptor.wants_accessor() && !attributes.accessor
    ||| descriptor.wants_data() && attributes.accessor
}

/// Whether a descriptor would move either half of an accessor.
pub open spec fn moves_a_half(
    realm: RealmView,
    descriptor: Descriptor,
    halves: (Option<Value>, Option<Value>),
) -> bool {
    ||| descriptor.getter matches Some(wanted) && !realm.same(wanted, or_undefined(halves.0))
    ||| descriptor.setter matches Some(wanted) && !realm.same(wanted, or_undefined(halves.1))
}

/// A half of an accessor, which is `undefined` when it is absent.
pub open spec fn or_undefined(half: Option<Value>) -> Value {
    match half {
        Some(value) => value,
        None => Value::Undefined,
    }
}

/// The halves of the accessor a property holds, and none for a data property.
pub open spec fn halves_of(realm: RealmView, current: Value, attributes: Attributes) -> (
    Option<Value>,
    Option<Value>,
) {
    if attributes.accessor {
        realm.pairs[current->Pair_0 as int]
    } else {
        (None, None)
    }
}

/// Whether a property that is there may be redefined this way.
///
/// A configurable one may be redefined however the descriptor likes. One that is not configurable
/// cannot become configurable again, its enumerability and its kind cannot change, and beyond that a
/// data property that is not writable cannot become writable or hold a different value, and an
/// accessor cannot have either half moved.
pub open spec fn permits(
    realm: RealmView,
    descriptor: Descriptor,
    current: Value,
    attributes: Attributes,
) -> bool {
    ||| attributes.configurable
    ||| {
        &&& descriptor.configurable != Some(true)
        &&& descriptor.enumerable matches Some(wanted) ==> wanted == attributes.enumerable
        &&& !turns(descriptor, attributes)
        &&& attributes.accessor ==> !moves_a_half(
            realm,
            descriptor,
            halves_of(realm, current, attributes),
        )
        &&& !attributes.accessor && !attributes.writable ==> {
            &&& descriptor.writable != Some(true)
            &&& descriptor.value matches Some(wanted) ==> realm.same(wanted, current)
        }
    }
}

/// What a definition does to a property that is there and may be redefined, or to one that is not
/// there: what it holds and may do afterwards, with every field the descriptor leaves out kept, or
/// absent and false when there is nothing to keep. The halves are those of an accessor.
pub open spec fn merged(
    realm: RealmView,
    descriptor: Descriptor,
    before: Option<(Value, Attributes)>,
) -> (Value, (Option<Value>, Option<Value>), Attributes) {
    let kept = match before {
        Some((_, attributes)) => attributes,
        None => Attributes::data(false, false, false),
    };
    let halves = match before {
        Some((current, attributes)) => halves_of(realm, current, attributes),
        None => (None, None),
    };
    let enumerable = flag_or(descriptor.enumerable, kept.enumerable);
    let configurable = flag_or(descriptor.configurable, kept.configurable);
    if descriptor.wants_accessor() || (kept.accessor && !descriptor.wants_data()) {
        let getter = if descriptor.getter is Some {
            stored_half(descriptor.getter)
        } else {
            halves.0
        };
        let setter = if descriptor.setter is Some {
            stored_half(descriptor.setter)
        } else {
            halves.1
        };
        (Value::Undefined, (getter, setter), Attributes::pair(enumerable, configurable))
    } else {
        let held = match before {
            Some((current, attributes)) if !attributes.accessor => current,
            _ => Value::Undefined,
        };
        let value = match descriptor.value {
            Some(value) => value,
            None => held,
        };
        (
            value,
            (None, None),
            Attributes::data(
                flag_or(descriptor.writable, kept.writable),
                enumerable,
                configurable,
            ),
        )
    }
}

/// A realm with a property stored, where an accessor is stored as a new pair.
pub open spec fn stored(
    realm: RealmView,
    object: int,
    key: Seq<char>,
    property: (Value, (Option<Value>, Option<Value>), Attributes),
) -> RealmView {
    if property.2.accessor {
        realm.with_pair(property.1.0, property.1.1).with_own(
            object,
            key,
            Value::Pair(realm.pairs.len() as usize),
            property.2,
        )
    } else {
        realm.with_own(object, key, property.0, property.2)
    }
}

/// What a definition answers, and the realm after it. A definition that is not allowed changes
/// nothing.
pub open spec fn applied(
    realm: RealmView,
    target: Value,
    key: Seq<char>,
    descriptor: Descriptor,
) -> (Result<(), ErrorView>, RealmView) {
    let before = realm.own(target, key);
    if before matches Some((current, attributes)) && !permits(
        realm,
        descriptor,
        current,
        attributes,
    ) {
        (Err(ErrorView::Type("Cannot redefine property: "@ + key)), realm)
    } else {
        (
            Ok(()),
            stored(realm, target->Object_0 as int, key, merged(realm, descriptor, before)),
        )
    }
}

/// Define a property the way the language says a definition works, on an object that is always
/// extensible.
///
/// A name that is not there yet is created, and every flag the descriptor does not mention is false
/// rather than true. A name that is there and is configurable can be redefined into anything. A name
/// that is there and is not configurable is nearly frozen. Writing the same value back is allowed,
/// which is why a non writable `NaN` can be redefined to `NaN` while a positive zero cannot be
/// redefined to a negative one.
fn apply(realm: &mut Realm, target: Value, key: &str, descriptor: Descriptor) -> (verdict: Result<
    (),
    RuntimeError,
>)
    requires
        old(realm)@.fits(),
        old(realm)@.knows(target),
        target is Object,
        descriptor.fits(old(realm)@),
    ensures
        final(realm)@.fits(),
        old(realm)@.grows_into(final(realm)@),
        (outcome(verdict), final(realm)@) == applied(old(realm)@, target, key@, descriptor),
{
    proof {
        lemma_growing_is_reflexive(realm@);
    }
    let (current, attributes) = match realm.own_descriptor(target, key) {
        Some(found) => found,
        None => {
            if descriptor.is_accessor() {
                let attributes = Attributes::accessor(
                    or_flag(descriptor.enumerable, false),
                    or_flag(descriptor.configurable, false),
                );
                store_accessor(
                    realm,
                    target,
                    key,
                    half(descriptor.getter),
                    half(descriptor.setter),
                    attributes,
                );
                return Ok(());
            }
            let value = match descriptor.value {
                Some(value) => value,
                None => Value::Undefined,
            };
            let attributes = Attributes::new(
                or_flag(descriptor.writable, false),
                or_flag(descriptor.enumerable, false),
                or_flag(descriptor.configurable, false),
            );
            realm.define_property(target, key, value, attributes);
            return Ok(());
        },
    };
    if !attributes.configurable {
        let asks_for_more: bool = descriptor.configurable == Some(true)
            || changes_enumerable(descriptor, attributes) || changes_kind(descriptor, attributes)
            || frozen_accessor_moves(realm, descriptor, current, attributes) || (
        !attributes.accessor && !attributes.writable && (descriptor.writable == Some(true)
            || changes_value(realm, descriptor, current)));
        if asks_for_more {
            let mut message = "Cannot redefine property: ".to_owned();
            message.append(key);
            return Err(RuntimeError::Type(message));
        }
    }
    if descriptor.is_accessor() || (attributes.accessor && !descriptor.is_data()) {
        redefine_accessor(realm, target, key, descriptor, current, attributes);
        return Ok(());
    }
    let value = match descriptor.value {
        Some(value) => value,
        None => if attributes.accessor {
            Value::Undefined
        } else {
            current
        },
    };
    let attributes = Attributes::new(
        or_flag(descriptor.writable, attributes.writable),
        or_flag(descriptor.enumerable, attributes.enumerable),
        or_flag(descriptor.configurable, attributes.configurable),
    );
    realm.define_property(target, key, value, attributes);
    Ok(())
}

/// Store an accessor as a new pair.
fn store_accessor(
    realm: &mut Realm,
    target: Value,
    key: &str,
    getter: Option<Value>,
    setter: Option<Value>,
    attributes: Attributes,
)
    requires
        old(realm)@.fits(),
        old(realm)@.knows(target),
        target is Object,
        getter matches Some(value) ==> old(realm)@.knows(value),
        setter matches Some(value) ==> old(realm)@.knows(value),
        attributes.accessor,
        !attributes.writable,
    ensures
        final(realm)@.fits(),
        old(realm)@.grows_into(final(realm)@),
        final(realm)@ == old(realm)@.with_pair(getter, setter).with_own(
            target->Object_0 as int,
            key@,
            Value::Pair(old(realm)@.pairs.len() as usize),
            attributes,
        ),
{
    let ghost before = realm@;
    let pair = realm.accessor_pair(getter, setter);
    let ghost paired = realm@;
    proof {
        lemma_growing_keeps_values(before, paired, target);
    }
    realm.define_property(target, key, pair, attributes);
    proof {
        lemma_growing_is_transitive(before, paired, realm@);
    }
}

fn changes_enumerable(descriptor: Descriptor, attributes: Attributes) -> (answer: bool)
    ensures
        answer == (descriptor.enumerable matches Some(wanted) && wanted != attributes.enumerable),
{
    match descriptor.enumerable {
        Some(wanted) => wanted != attributes.enumerable,
        None => false,
    }
}

fn changes_value(realm: &Realm, descriptor: Descriptor, current: Value) -> (answer: bool)
    requires
        descriptor.fits(realm@),
        realm@.knows(current),
    ensures
        answer == (descriptor.value matches Some(wanted) && !realm@.same(wanted, current)),
{
    match descriptor.value {
        Some(wanted) => !realm.same_value(wanted, current),
        None => false,
    }
}

/// Whether this descriptor would turn a data property into an accessor or the other way round.
///
/// A descriptor that mentions neither kind is not asking for either, which is what makes
/// `Object.defineProperty(o, 'x', {enumerable: false})` legal against an accessor.
fn changes_kind(descriptor: Descriptor, attributes: Attributes) -> (answer: bool)
    ensures
        answer == turns(descriptor, attributes),
{
    (descriptor.is_accessor() && !attributes.accessor) || (descriptor.is_data()
        && attributes.accessor)
}

/// Whether this descriptor would move either half of a non configurable accessor.
///
/// An accessor has no writable flag, so a non configurable one is frozen outright. Writing the same
/// function back is allowed.
fn frozen_accessor_moves(
    realm: &Realm,
    descriptor: Descriptor,
    current: Value,
    attributes: Attributes,
) -> (answer: bool)
    requires
        realm@.fits(),
        descriptor.fits(realm@),
        attributes.accessor ==> (current matches Value::Pair(pair) && pair < realm@.pairs.len()),
    ensures
        answer == (attributes.accessor && moves_a_half(
            realm@,
            descriptor,
            halves_of(realm@, current, attributes),
        )),
{
    if !attributes.accessor || !descriptor.is_accessor() {
        return false;
    }
    let (getter, setter) = realm.accessor_halves(current);
    moved(realm, descriptor.getter, getter) || moved(realm, descriptor.setter, setter)
}

fn moved(realm: &Realm, wanted: Option<Value>, have: Option<Value>) -> (answer: bool)
    requires
        wanted matches Some(value) ==> realm@.knows(value),
        have matches Some(value) ==> realm@.knows(value),
    ensures
        answer == (wanted matches Some(value) && !realm@.same(value, or_undefined(have))),
{
    let held = match have {
        Some(value) => value,
        None => Value::Undefined,
    };
    match wanted {
        Some(value) => !realm.same_value(value, held),
        None => false,
    }
}

/// Store an accessor, keeping whatever halves and flags the descriptor did not mention.
///
/// Keeping the halves is what lets a getter and a setter be defined in two separate calls. A property
/// that was a data property has no halves to keep, and its value is dropped rather than carried.
fn redefine_accessor(
    realm: &mut Realm,
    target: Value,
    key: &str,
    descriptor: Descriptor,
    current: Value,
    attributes: Attributes,
)
    requires
        old(realm)@.fits(),
        old(realm)@.knows(target),
        target is Object,
        descriptor.fits(old(realm)@),
        attributes.accessor ==> (current matches Value::Pair(pair) && pair
            < old(realm)@.pairs.len()),
        descriptor.wants_accessor() || (attributes.accessor && !descriptor.wants_data()),
    ensures
        final(realm)@.fits(),
        old(realm)@.grows_into(final(realm)@),
        final(realm)@ == stored(
            old(realm)@,
            target->Object_0 as int,
            key@,
            merged(old(realm)@, descriptor, Some((current, attributes))),
        ),
{
    let (old_getter, old_setter) = if attributes.accessor {
        realm.accessor_halves(current)
    } else {
        (None, None)
    };
    let getter = if descriptor.getter.is_some() {
        half(descriptor.getter)
    } else {
        old_getter
    };
    let setter = if descriptor.setter.is_some() {
        half(descriptor.setter)
    } else {
        old_setter
    };
    let merged = Attributes::accessor(
        or_flag(descriptor.enumerable, attributes.enumerable),
        or_flag(descriptor.configurable, attributes.configurable),
    );
    store_accessor(realm, target, key, getter, setter, merged);
}

/// What `Object.defineProperty` answers, and the realm after it.
pub open spec fn defined(realm: RealmView, args: Seq<Value>) -> (
    Result<Value, ErrorView>,
    RealmView,
) {
    let target = argument(args, 0);
    if !(target is Object) {
        (Err(ErrorView::Type("Object.defineProperty called on non-object"@)), realm)
    } else {
        match text_of(realm, argument(args, 1)) {
            Err(error) => (Err(error), realm),
            Ok(key) => match descriptor_of(realm, argument(args, 2)) {
                Err(error) => (Err(error), realm),
                Ok(descriptor) => match applied(realm, target, key, descriptor) {
                    (Err(error), after) => (Err(error), after),
                    (Ok(_), after) => (Ok(target), after),
                },
            },
        }
    }
}

/// `Object.defineProperty(target, key, descriptor)`.
///
/// Answers with the target, which is what makes `Object.defineProperty(o, 'x', d).x` work.
pub fn define_property(realm: &mut Realm, args: &[Value]) -> (answer: Result<Value, RuntimeError>)
    requires
        old(realm)@.fits(),
        old(realm)@.knows_all(args@),
    ensures
        final(realm)@.fits(),
        old(realm)@.grows_into(final(realm)@),
        (outcome(answer), final(realm)@) == defined(old(realm)@, args@),
        answer matches Ok(value) ==> final(realm)@.knows(value),
{
    proof {
        lemma_growing_is_reflexive(realm@);
    }
    let ghost before = realm@;
    let target = arg(args, 0);
    // A function counts, and it is the reason this asks two questions instead of one.
    if !realm.is_ordinary_object(target) && !realm.is_callable(target) {
        return Err(RuntimeError::of_type("Object.defineProperty called on non-object"));
    }
    let key = match to_text(realm, arg(args, 1)) {
        Ok(key) => key,
        Err(error) => {
            return Err(error);
        },
    };
    let descriptor = match read_descriptor(realm, arg(args, 2)) {
        Ok(descriptor) => descriptor,
        Err(error) => {
            return Err(error);
        },
    };
    match apply(realm, target, key.as_str(), descriptor) {
        Ok(()) => {
            proof {
                lemma_growing_keeps_values(before, realm@, target);
            }
            Ok(target)
        },
        Err(error) => Err(error),
    }
}

/// The descriptors a list of properties holds, every one of them read before any is used.
pub open spec fn read_all(realm: RealmView, entries: Seq<PropertyView>) -> Result<
    Seq<(Seq<char>, Descriptor)>,
    ErrorView,
>
    decreases entries.len(),
{
    if entries.len() == 0 {
        Ok(Seq::empty())
    } else {
        match read_all(realm, entries.drop_last()) {
            Err(error) => Err(error),
            Ok(before) => if entries.last().attributes.accessor {
                Err(met_an_accessor(entries.last().key))
            } else {
                match descriptor_of(realm, entries.last().value) {
                    Err(error) => Err(error),
                    Ok(descriptor) => Ok(before.push((entries.last().key, descriptor))),
                }
            },
        }
    }
}

/// What several definitions in a row answer, and the realm after them. The first one that is not
/// allowed ends it.
pub open spec fn applied_all(
    realm: RealmView,
    target: Value,
    list: Seq<(Seq<char>, Descriptor)>,
) -> (Result<(), ErrorView>, RealmView)
    decreases list.len(),
{
    if list.len() == 0 {
        (Ok(()), realm)
    } else {
        match applied_all(realm, target, list.drop_last()) {
            (Err(error), after) => (Err(error), after),
            (Ok(_), after) => applied(after, target, list.last().0, list.last().1),
        }
    }
}

/// The properties `Object.defineProperties` reads descriptors from: none for a primitive.
pub open spec fn descriptors_in(realm: RealmView, source: Value) -> Seq<PropertyView> {
    match realm.walked(source) {
        Some(list) => list,
        None => Seq::empty(),
    }
}

/// What `Object.defineProperties` answers, and the realm after it.
pub open spec fn defined_all(realm: RealmView, target: Value, source: Value) -> (
    Result<Value, ErrorView>,
    RealmView,
) {
    if !(target is Object) {
        (Err(ErrorView::Type("Object.defineProperties called on non-object"@)), realm)
    } else if source == Value::Undefined || source == Value::Null {
        (Err(not_an_object()), realm)
    } else {
        match read_all(realm, descriptors_in(realm, source)) {
            Err(error) => (Err(error), realm),
            Ok(list) => match applied_all(realm, target, list) {
                (Err(error), after) => (Err(error), after),
                (Ok(_), after) => (Ok(target), after),
            },
        }
    }
}

/// A list of keys and descriptors with the keys as sequences of characters.
spec fn list_views(list: Seq<(String, Descriptor)>) -> Seq<(Seq<char>, Descriptor)> {
    Seq::new(list.len(), |i: int| (list[i].0@, list[i].1))
}

/// Read every descriptor a list of properties holds.
fn read_descriptors(realm: &Realm, entries: &Vec<Property>) -> (list: Result<
    Vec<(String, Descriptor)>,
    RuntimeError,
>)
    requires
        realm@.fits(),
        forall|i: int| 0 <= i < entries@.len() ==> realm@.slot_fits((#[trigger] entries@[i])@),
    ensures
        list is Ok <==> read_all(
            realm@,
            Seq::new(entries@.len(), |i: int| entries@[i]@),
        ) is Ok,
        list matches Ok(read) ==> {
            &&& read_all(realm@, Seq::new(entries@.len(), |i: int| entries@[i]@)) == Ok::<
                Seq<(Seq<char>, Descriptor)>,
                ErrorView,
            >(list_views(read@))
            &&& forall|i: int| 0 <= i < read@.len() ==> (#[trigger] read@[i]).1.fits(realm@)
        },
        list matches Err(error) ==> read_all(
            realm@,
            Seq::new(entries@.len(), |i: int| entries@[i]@),
        ) == Err::<Seq<(Seq<char>, Descriptor)>, ErrorView>(error@),
{
    let ghost all = Seq::new(entries@.len(), |i: int| entries@[i]@);
    let mut read: Vec<(String, Descriptor)> = Vec::new();
    let mut at: usize = 0;
    proof {
        assert(all.take(0) =~= Seq::<PropertyView>::empty());
        assert(list_views(read@) =~= Seq::<(Seq<char>, Descriptor)>::empty());
    }
    while at < entries.len()
        invariant
            at <= entries@.len(),
            realm@.fits(),
            all == Seq::new(entries@.len(), |i: int| entries@[i]@),
            forall|i: int| 0 <= i < entries@.len() ==> realm@.slot_fits((#[trigger] entries@[i])@),
            read_all(realm@, all.take(at as int)) == Ok::<Seq<(Seq<char>, Descriptor)>, ErrorView>(
                list_views(read@),
            ),
            forall|i: int| 0 <= i < read@.len() ==> (#[trigger] read@[i]).1.fits(realm@),
        decreases entries@.len() - at,
    {
        let property = &entries[at];
        proof {
            let next = all.take(at + 1);
            assert(next.drop_last() =~= all.take(at as int));
            assert(next.last() == property@);
            assert(realm@.slot_fits(entries@[at as int]@));
        }
        // A descriptors object that keeps its descriptors behind getters, which is legal and rare.
        if property.attributes.accessor {
            proof {
                lemma_a_bad_entry_ends_it(realm@, all, at + 1);
            }
            return Err(Realm::native_met_an_accessor(property.key.as_str()));
        }
        match read_descriptor(realm, property.value) {
            Ok(descriptor) => {
                let ghost before = read@;
                read.push((property.key.clone(), descriptor));
                assert(list_views(read@) =~= list_views(before).push((property.key@, descriptor)));
            },
            Err(error) => {
                proof {
                    lemma_a_bad_entry_ends_it(realm@, all, at + 1);
                }
                return Err(error);
            },
        }
        at = at + 1;
    }
    assert(all.take(at as int) =~= all);
    Ok(read)
}

/// Once one entry cannot be read, the rest does not matter.
proof fn lemma_a_bad_entry_ends_it(realm: RealmView, entries: Seq<PropertyView>, count: int)
    requires
        0 <= count <= entries.len(),
        read_all(realm, entries.take(count)) is Err,
    ensures
        read_all(realm, entries) == read_all(realm, entries.take(count)),
    decreases entries.len() - count,
{
    if count == entries.len() {
        assert(entries.take(count) =~= entries);
    } else {
        let next = entries.take(count + 1);
        assert(next.drop_last() =~= entries.take(count));
        lemma_a_bad_entry_ends_it(realm, entries, count + 1);
    }
}

/// Once one definition is not allowed, the rest does not happen.
proof fn lemma_a_refusal_ends_it(
    realm: RealmView,
    target: Value,
    list: Seq<(Seq<char>, Descriptor)>,
    count: int,
)
    requires
        0 <= count <= list.len(),
        applied_all(realm, target, list.take(count)).0 is Err,
    ensures
        applied_all(realm, target, list) == applied_all(realm, target, list.take(count)),
    decreases list.len() - count,
{
    if count == list.len() {
        assert(list.take(count) =~= list);
    } else {
        let next = list.take(count + 1);
        assert(next.drop_last() =~= list.take(count));
        lemma_a_refusal_ends_it(realm, target, list, count + 1);
    }
}

/// Apply several definitions in a row.
fn apply_all(realm: &mut Realm, target: Value, list: &Vec<(String, Descriptor)>) -> (verdict: Result<
    (),
    RuntimeError,
>)
    requires
        old(realm)@.fits(),
        old(realm)@.knows(target),
        target is Object,
        forall|i: int| 0 <= i < list@.len() ==> (#[trigger] list@[i]).1.fits(old(realm)@),
    ensures
        final(realm)@.fits(),
        old(realm)@.grows_into(final(realm)@),
        (outcome(verdict), final(realm)@) == applied_all(
            old(realm)@,
            target,
            list_views(list@),
        ),
{
    let ghost before = realm@;
    let ghost all = list_views(list@);
    let mut at: usize = 0;
    proof {
        lemma_growing_is_reflexive(before);
        assert(all.take(0) =~= Seq::<(Seq<char>, Descriptor)>::empty());
    }
    while at < list.len()
        invariant
            at <= list@.len(),
            all == list_views(list@),
            before == old(realm)@,
            realm@.fits(),
            before.grows_into(realm@),
            before.knows(target),
            target is Object,
            forall|i: int| 0 <= i < list@.len() ==> (#[trigger] list@[i]).1.fits(before),
            applied_all(before, target, all.take(at as int)) == (
                Ok::<(), ErrorView>(()),
                realm@,
            ),
        decreases list@.len() - at,
    {
        let ghost held = realm@;
        let descriptor: Descriptor = list[at].1;
        proof {
            let next = all.take(at + 1);
            assert(next.drop_last() =~= all.take(at as int));
            assert(next.last() == (list@[at as int].0@, descriptor));
            assert(list@[at as int].1.fits(before));
            lemma_descriptors_stay_good(before, held, descriptor);
            lemma_growing_keeps_values(before, held, target);
        }
        let verdict = apply(realm, target, list[at].0.as_str(), descriptor);
        proof {
            lemma_growing_is_transitive(before, held, realm@);
        }
        match verdict {
            Ok(()) => {},
            Err(error) => {
                proof {
                    lemma_a_refusal_ends_it(before, target, all, at + 1);
                }
                return Err(error);
            },
        }
        at = at + 1;
    }
    assert(all.take(at as int) =~= all);
    Ok(())
}

proof fn lemma_descriptors_stay_good(before: RealmView, after: RealmView, descriptor: Descriptor)
    requires
        before.grows_into(after),
        descriptor.fits(before),
    ensures
        descriptor.fits(after),
{
}

/// `Object.defineProperties(target, descriptors)`.
///
/// Every descriptor is read before any of them is applied: `Object.defineProperties({}, {a: {value:
/// 1}, b: 2})` throws over `b` and leaves `a` undefined rather than half done.
///
/// A primitive other than `undefined` and `null` has no own properties to read, so it defines nothing
/// and does not complain.
pub fn define_properties(realm: &mut Realm, target: Value, source: Value) -> (answer: Result<
    Value,
    RuntimeError,
>)
    requires
        old(realm)@.fits(),
        old(realm)@.knows(target),
        old(realm)@.knows(source),
    ensures
        final(realm)@.fits(),
        old(realm)@.grows_into(final(realm)@),
        (outcome(answer), final(realm)@) == defined_all(old(realm)@, target, source),
        answer matches Ok(value) ==> final(realm)@.knows(value),
{
    proof {
        lemma_growing_is_reflexive(realm@);
    }
    let ghost before = realm@;
    if !realm.is_ordinary_object(target) && !realm.is_callable(target) {
        return Err(RuntimeError::of_type("Object.defineProperties called on non-object"));
    }
    if source.is_nullish() {
        return Err(RuntimeError::of_type("Cannot convert undefined or null to object"));
    }
    let entries = match realm.own_properties(source) {
        Some(entries) => entries,
        None => Vec::new(),
    };
    assert(Seq::new(entries@.len(), |i: int| entries@[i]@) =~= descriptors_in(before, source));
    let list = match read_descriptors(realm, &entries) {
        Ok(list) => list,
        Err(error) => {
            return Err(error);
        },
    };
    match apply_all(realm, target, &list) {
        Ok(()) => {
            proof {
                lemma_growing_keeps_values(before, realm@, target);
            }
            Ok(target)
        },
        Err(error) => Err(error),
    }
}

/// What `Object.create` answers, and the realm after it.
pub open spec fn created(realm: RealmView, args: Seq<Value>) -> (
    Result<Value, ErrorView>,
    RealmView,
) {
    if realm.calls(argument(args, 0)) {
        (
            Err(
                ErrorView::Unsupported(
                    "Object.create is not supported yet for a function, because a prototype link can only point at an ordinary object"@,
                ),
            ),
            realm,
        )
    } else {
        match realm.object_below(argument(args, 0)) {
            (Err(error), after) => (Err(error), after),
            (Ok(object), after) => if argument(args, 1) == Value::Undefined {
                (Ok(object), after)
            } else {
                defined_all(after, object, argument(args, 1))
            },
        }
    }
}

/// `Object.create(prototype, descriptors)`.
///
/// The second argument is `Object.defineProperties` on the new object.
///
/// `undefined` is not the same as absent for the first argument: it is required to be an object or
/// `null` and `undefined` is neither. It is the other way around for the second, where absent means
/// there is nothing to define.
///
/// Inheriting from a function is legal and refuses by name.
pub fn create(realm: &mut Realm, args: &[Value]) -> (answer: Result<Value, RuntimeError>)
    requires
        old(realm)@.fits(),
        old(realm)@.knows_all(args@),
    ensures
        final(realm)@.fits(),
        old(realm)@.grows_into(final(realm)@),
        (outcome(answer), final(realm)@) == created(old(realm)@, args@),
        answer matches Ok(value) ==> final(realm)@.knows(value),
{
    proof {
        lemma_growing_is_reflexive(realm@);
    }
    let ghost before = realm@;
    if realm.is_callable(arg(args, 0)) {
        return Err(
            RuntimeError::unsupported(
                "Object.create is not supported yet for a function, because a prototype link can only point at an ordinary object",
            ),
        );
    }
    let object = match realm.new_object_with_prototype(arg(args, 0)) {
        Ok(object) => object,
        Err(error) => {
            return Err(error);
        },
    };
    let ghost made = realm@;
    let descriptors = arg(args, 1);
    if descriptors.is_undefined() {
        return Ok(object);
    }
    proof {
        lemma_growing_keeps_values(before, made, descriptors);
    }
    let answer = define_properties(realm, object, descriptors);
    proof {
        lemma_growing_is_transitive(before, made, realm@);
    }
    answer
}

/// The fields of the descriptor object that describes a property.
pub open spec fn description(realm: RealmView, value: Value, attributes: Attributes) -> Seq<
    (Seq<char>, Value),
> {
    if attributes.accessor {
        let halves = halves_of(realm, value, attributes);
        seq![
            ("get"@, or_undefined(halves.0)),
            ("set"@, or_undefined(halves.1)),
            ("enumerable"@, Value::Bool(attributes.enumerable)),
            ("configurable"@, Value::Bool(attributes.configurable)),
        ]
    } else {
        seq![
            ("value"@, value),
            ("writable"@, Value::Bool(attributes.writable)),
            ("enumerable"@, Value::Bool(attributes.enumerable)),
            ("configurable"@, Value::Bool(attributes.configurable)),
        ]
    }
}

/// What `Object.getOwnPropertyDescriptor` answers, and the realm after it.
pub open spec fn described(realm: RealmView, args: Seq<Value>) -> (
    Result<Value, ErrorView>,
    RealmView,
) {
    let value = argument(args, 0);
    if value == Value::Undefined || value == Value::Null {
        (Err(not_an_object()), realm)
    } else {
        match text_of(realm, argument(args, 1)) {
            Err(error) => (Err(error), realm),
            Ok(key) => if value is Text {
                (
                    Err(
                        ErrorView::Unsupported(
                            "Object.getOwnPropertyDescriptor is not supported yet for a string, because it needs the wrapper prototypes"@,
                        ),
                    ),
                    realm,
                )
            } else if !(value is Object) {
                (Ok(Value::Undefined), realm)
            } else {
                match realm.own(value, key) {
                    Some((held, attributes)) => (
                        Ok(Value::Object(realm.objects.len() as usize)),
                        realm.with_object(RealmView::empty_object(Some(0usize))).with_entries(
                            realm.objects.len() as int,
                            description(realm, held, attributes),
                            Attributes::data(true, true, true),
                        ),
                    ),
                    None => if realm.calls(value) && (key == "name"@ || key == "length"@) {
                        (
                            Err(
                                ErrorView::Unsupported(
                                    "Object.getOwnPropertyDescriptor is not supported yet for '"@
                                        + key
                                        + "' on a function, because a function does not carry that property yet"@,
                                ),
                            ),
                            realm,
                        )
                    } else {
                        (Ok(Value::Undefined), realm)
                    },
                }
            },
        }
    }
}

/// `Object.getOwnPropertyDescriptor(object, key)`.
///
/// `undefined` for a name the object does not have of its own, including one it inherits.
pub fn describe(realm: &mut Realm, args: &[Value]) -> (answer: Result<Value, RuntimeError>)
    requires
        old(realm)@.fits(),
        old(realm)@.knows_all(args@),
    ensures
        final(realm)@.fits(),
        old(realm)@.grows_into(final(realm)@),
        (outcome(answer), final(realm)@) == described(old(realm)@, args@),
        answer matches Ok(value) ==> final(realm)@.knows(value),
{
    proof {
        lemma_growing_is_reflexive(realm@);
    }
    let ghost before = realm@;
    let value = arg(args, 0);
    if value.is_nullish() {
        return Err(RuntimeError::of_type("Cannot convert undefined or null to object"));
    }
    let key = match to_text(realm, arg(args, 1)) {
        Ok(key) => key,
        Err(error) => {
            return Err(error);
        },
    };
    let callable: bool = realm.is_callable(value);
    if !realm.is_ordinary_object(value) && !callable {
        return unwrappable(realm, value);
    }
    let (held, attributes) = match realm.own_descriptor(value, key.as_str()) {
        Some(found) => found,
        None => {
            // A function has `name` and `length` in Node and does not have them here, so answering
            // `undefined` for those two would be a wrong answer rather than a missing one.
            if callable && (crate::text::same_text(key.as_str(), "name") || crate::text::same_text(
                key.as_str(),
                "length",
            )) {
                let mut message =
                    "Object.getOwnPropertyDescriptor is not supported yet for '".to_owned();
                message.append(key.as_str());
                message.append(
                    "' on a function, because a function does not carry that property yet",
                );
                return Err(RuntimeError::Unsupported(message));
            }
            return Ok(Value::Undefined);
        },
    };
    let enumerable = Value::Bool(attributes.enumerable);
    let configurable = Value::Bool(attributes.configurable);
    // An accessor descriptor has four fields of its own. Reporting a getter is not calling it.
    if attributes.accessor {
        let (getter, setter) = realm.accessor_halves(held);
        let entries = [
            ("get", undefined_if_absent(getter)),
            ("set", undefined_if_absent(setter)),
            ("enumerable", enumerable),
            ("configurable", configurable),
        ];
        assert(entry_views(entries@) =~= description(before, held, attributes));
        return Ok(realm.host_object(&entries));
    }
    let writable = Value::Bool(attributes.writable);
    // In this order, because it is the order Node prints.
    let entries = [
        ("value", held),
        ("writable", writable),
        ("enumerable", enumerable),
        ("configurable", configurable),
    ];
    assert(entry_views(entries@) =~= description(before, held, attributes));
    Ok(realm.host_object(&entries))
}

fn undefined_if_absent(half: Option<Value>) -> (value: Value)
    ensures
        value == or_undefined(half),
{
    match half {
        Some(value) => value,
        None => Value::Undefined,
    }
}

/// What to say about a primitive that was asked to describe a property of itself.
///
/// A number or a boolean boxes into a wrapper that never has own properties, so the answer is
/// `undefined`. A string is different: its wrapper carries `length` and one property per character,
/// so it refuses by name instead.
fn unwrappable(realm: &Realm, value: Value) -> (answer: Result<Value, RuntimeError>)
    requires
        realm@.knows(value),
    ensures
        outcome(answer) == if value is Text {
            Err::<Value, ErrorView>(
                ErrorView::Unsupported(
                    "Object.getOwnPropertyDescriptor is not supported yet for a string, because it needs the wrapper prototypes"@,
                ),
            )
        } else {
            Ok(Value::Undefined)
        },
        answer matches Ok(value) ==> value == Value::Undefined,
{
    if realm.as_text(value).is_some() {
        return Err(
            RuntimeError::unsupported(
                "Object.getOwnPropertyDescriptor is not supported yet for a string, because it needs the wrapper prototypes",
            ),
        );
    }
    Ok(Value::Undefined)
}

/// A property that is not configurable can only ever become less permissive: a definition that is
/// allowed leaves it not configurable, of the same kind and as visible as it was, never makes it
/// writable again, and changes its value only when it was writable.
pub proof fn law_a_fixed_property_only_becomes_less_permissive(
    realm: RealmView,
    target: Value,
    key: Seq<char>,
    descriptor: Descriptor,
)
    requires
        realm.fits(),
        realm.knows(target),
        target is Object,
        realm.pairs.len() < usize::MAX,
        realm.own(target, key) matches Some((_, attributes)) && !attributes.configurable,
        applied(realm, target, key, descriptor).0 is Ok,
    ensures
        ({
            let (current, before) = realm.own(target, key)->0;
            let later = applied(realm, target, key, descriptor).1;
            let (held, after) = later.own(target, key)->0;
            &&& later.own(target, key) is Some
            &&& !after.configurable
            &&& after.enumerable == before.enumerable
            &&& after.accessor == before.accessor
            &&& after.writable ==> before.writable
            &&& !before.accessor && !before.writable ==> realm.same(held, current)
            &&& before.accessor ==> {
                let old_halves = halves_of(realm, current, before);
                let new_halves = halves_of(later, held, after);
                &&& realm.same(or_undefined(new_halves.0), or_undefined(old_halves.0))
                &&& realm.same(or_undefined(new_halves.1), or_undefined(old_halves.1))
            }
        }),
{
    let object = target->Object_0;
    let (current, before) = realm.own(target, key)->0;
    let property = merged(realm, descriptor, Some((current, before)));
    lemma_stored_is_there(realm, object, key, property);
    assert(realm.object_fits(object as int));
    lemma_found_is_there(realm.objects[object as int].properties, key, 0);
    lemma_same_is_reflexive(realm, current);
    let halves = halves_of(realm, current, before);
    lemma_same_is_reflexive(realm, or_undefined(halves.0));
    lemma_same_is_reflexive(realm, or_undefined(halves.1));
}

proof fn lemma_same_is_reflexive(realm: RealmView, value: Value)
    ensures
        realm.same(value, value),
{
}

/// What was stored is what is there.
proof fn lemma_stored_is_there(
    realm: RealmView,
    object: usize,
    key: Seq<char>,
    property: (Value, (Option<Value>, Option<Value>), Attributes),
)
    requires
        realm.fits(),
        object < realm.objects.len(),
        realm.pairs.len() < usize::MAX,
    ensures
        ({
            let later = stored(realm, object as int, key, property);
            &&& later.own(Value::Object(object), key) == Some(
                (
                    if property.2.accessor {
                        Value::Pair(realm.pairs.len() as usize)
                    } else {
                        property.0
                    },
                    property.2,
                ),
            )
            &&& property.2.accessor ==> halves_of(
                later,
                Value::Pair(realm.pairs.len() as usize),
                property.2,
            ) == property.1
            &&& forall|other: usize, name: Seq<char>|
                other < realm.objects.len() && (other != object || name != key) ==> #[trigger] later.own(
                    Value::Object(other),
                    name,
                ) == realm.own(Value::Object(other), name)
        }),
{
    let later = stored(realm, object as int, key, property);
    let value = if property.2.accessor {
        Value::Pair(realm.pairs.len() as usize)
    } else {
        property.0
    };
    assert(realm.object_fits(object as int));
    assert forall|other: usize, name: Seq<char>|
        other < realm.objects.len() && (other != object || name != key) implies #[trigger] later.own(
        Value::Object(other),
        name,
    ) == realm.own(Value::Object(other), name) by {
        lemma_find_after_define(
            realm.objects[object as int].properties,
            PropertyView { key, value, attributes: property.2 },
            name,
        );
    }
    lemma_find_after_define(
        realm.objects[object as int].properties,
        PropertyView { key, value, attributes: property.2 },
        key,
    );
}

/// A configurable property can be redefined into anything, and a name that is not there can be
/// defined as anything.
pub proof fn law_a_configurable_property_can_become_anything(
    realm: RealmView,
    target: Value,
    key: Seq<char>,
    descriptor: Descriptor,
)
    requires
        realm.own(target, key) matches Some((_, attributes)) ==> attributes.configurable,
    ensures
        applied(realm, target, key, descriptor).0 is Ok,
{
}

/// A definition gives a new property nothing it was not asked for.
pub proof fn law_a_new_property_gets_nothing_it_was_not_asked_for(
    realm: RealmView,
    target: Value,
    key: Seq<char>,
    descriptor: Descriptor,
)
    requires
        realm.fits(),
        realm.knows(target),
        target is Object,
        realm.pairs.len() < usize::MAX,
        realm.own(target, key) is None,
    ensures
        ({
            let later = applied(realm, target, key, descriptor).1;
            let (held, attributes) = later.own(target, key)->0;
            &&& applied(realm, target, key, descriptor).0 is Ok
            &&& later.own(target, key) is Some
            &&& attributes.writable ==> descriptor.writable == Some(true)
            &&& attributes.enumerable ==> descriptor.enumerable == Some(true)
            &&& attributes.configurable ==> descriptor.configurable == Some(true)
            &&& !attributes.accessor && descriptor.value is None ==> held == Value::Undefined
        }),
{
    lemma_stored_is_there(realm, target->Object_0, key, merged(realm, descriptor, None));
}

/// A definition that is refused changes nothing, and one that is allowed changes no other property
/// of any object.
pub proof fn law_a_definition_touches_one_property(
    realm: RealmView,
    target: Value,
    key: Seq<char>,
    descriptor: Descriptor,
    other: usize,
    name: Seq<char>,
)
    requires
        realm.fits(),
        realm.knows(target),
        target is Object,
        realm.pairs.len() < usize::MAX,
        other < realm.objects.len(),
        Value::Object(other) != target || name != key,
    ensures
        applied(realm, target, key, descriptor).0 is Err ==> applied(
            realm,
            target,
            key,
            descriptor,
        ).1 == realm,
        applied(realm, target, key, descriptor).1.own(Value::Object(other), name) == realm.own(
            Value::Object(other),
            name,
        ),
{
    lemma_stored_is_there(
        realm,
        target->Object_0,
        key,
        merged(realm, descriptor, realm.own(target, key)),
    );
}

/// The descriptor that says what a property already is.
pub open spec fn own_description(realm: RealmView, value: Value, attributes: Attributes) -> Descriptor {
    if attributes.accessor {
        let halves = halves_of(realm, value, attributes);
        Descriptor {
            value: None,
            getter: Some(or_undefined(halves.0)),
            setter: Some(or_undefined(halves.1)),
            writable: None,
            enumerable: Some(attributes.enumerable),
            configurable: Some(attributes.configurable),
        }
    } else {
        Descriptor {
            value: Some(value),
            getter: None,
            setter: None,
            writable: Some(attributes.writable),
            enumerable: Some(attributes.enumerable),
            configurable: Some(attributes.configurable),
        }
    }
}

/// A redefinition that changes nothing is allowed however locked down the property is, whether it
/// says nothing at all or says everything the property already is.
pub proof fn law_a_redefinition_that_changes_nothing_is_allowed(
    realm: RealmView,
    target: Value,
    key: Seq<char>,
)
    requires
        realm.fits(),
        realm.knows(target),
        target is Object,
        realm.pairs.len() < usize::MAX,
        realm.own(target, key) is Some,
    ensures
        ({
            let (current, attributes) = realm.own(target, key)->0;
            let nothing = Descriptor {
                value: None,
                getter: None,
                setter: None,
                writable: None,
                enumerable: None,
                configurable: None,
            };
            let everything = own_description(realm, current, attributes);
            &&& applied(realm, target, key, nothing).0 is Ok
            &&& applied(realm, target, key, everything).0 is Ok
            &&& (applied(realm, target, key, nothing).1.own(target, key)->0).1 == attributes
            &&& !attributes.accessor ==> applied(realm, target, key, nothing).1.own(target, key)
                == realm.own(target, key)
            &&& !attributes.accessor ==> applied(realm, target, key, everything).1.own(target, key)
                == realm.own(target, key)
        }),
{
    let (current, attributes) = realm.own(target, key)->0;
    let object = target->Object_0 as int;
    assert(realm.object_fits(object));
    lemma_found_is_there(realm.objects[object].properties, key, 0);
    let found = find(realm.objects[object].properties, key)->0;
    assert(realm.slot_fits(realm.objects[object].properties[found]));
    let nothing = Descriptor {
        value: None,
        getter: None,
        setter: None,
        writable: None,
        enumerable: None,
        configurable: None,
    };
    let everything = own_description(realm, current, attributes);
    lemma_same_is_reflexive(realm, current);
    let halves = halves_of(realm, current, attributes);
    lemma_same_is_reflexive(realm, or_undefined(halves.0));
    lemma_same_is_reflexive(realm, or_undefined(halves.1));
    lemma_stored_is_there(
        realm,
        target->Object_0,
        key,
        merged(realm, nothing, Some((current, attributes))),
    );
    lemma_stored_is_there(
        realm,
        target->Object_0,
        key,
        merged(realm, everything, Some((current, attributes))),
    );
}

/// When any descriptor cannot be read, defining many properties at once defines none of them.
pub proof fn law_every_descriptor_is_read_before_any_is_applied(
    realm: RealmView,
    target: Value,
    source: Value,
)
    requires
        read_all(realm, descriptors_in(realm, source)) is Err,
    ensures
        defined_all(realm, target, source).1 == realm,
        defined_all(realm, target, source).0 is Err,
{
}

/// A definition that is allowed gives the property everything it asked for: the value, the halves of
/// an accessor and each flag it mentions.
pub proof fn law_a_definition_gives_what_it_asked_for(
    realm: RealmView,
    target: Value,
    key: Seq<char>,
    descriptor: Descriptor,
)
    requires
        realm.fits(),
        realm.knows(target),
        target is Object,
        realm.pairs.len() < usize::MAX,
        !(descriptor.wants_accessor() && descriptor.wants_data()),
        applied(realm, target, key, descriptor).0 is Ok,
    ensures
        ({
            let later = applied(realm, target, key, descriptor).1;
            let (held, attributes) = later.own(target, key)->0;
            let halves = halves_of(later, held, attributes);
            &&& later.own(target, key) is Some
            &&& descriptor.wants_accessor() ==> attributes.accessor
            &&& descriptor.wants_data() ==> !attributes.accessor
            &&& descriptor.value matches Some(value) ==> held == value
            &&& descriptor.writable matches Some(flag) ==> attributes.writable == flag
            &&& descriptor.enumerable matches Some(flag) ==> attributes.enumerable == flag
            &&& descriptor.configurable matches Some(flag) ==> attributes.configurable == flag
            &&& descriptor.getter matches Some(getter) ==> or_undefined(halves.0) == getter
            &&& descriptor.setter matches Some(setter) ==> or_undefined(halves.1) == setter
        }),
{
    lemma_stored_is_there(
        realm,
        target->Object_0,
        key,
        merged(realm, descriptor, realm.own(target, key)),
    );
}

/// Asking whether a property is there, describing it and asking whether it shows agree: a property is
/// described exactly when it is there, and one that shows is there.
pub proof fn law_owning_describing_and_showing_agree(realm: RealmView, object: Value, key: Value)
    requires
        object is Object,
        text_of(realm, key) is Ok,
    ensures
        ({
            let owned = owns(realm, Some(object), seq![key]);
            let shown = shows(realm, Some(object), seq![key]);
            &&& owned == Ok::<Value, ErrorView>(
                Value::Bool(realm.own(object, text_of(realm, key)->Ok_0) is Some),
            )
            &&& shown == Ok::<Value, ErrorView>(Value::Bool(true)) ==> owned == Ok::<
                Value,
                ErrorView,
            >(Value::Bool(true))
            &&& described(realm, seq![object, key]).0 matches Ok(answer) ==> (answer is Object
                <==> owned == Ok::<Value, ErrorView>(Value::Bool(true)))
        }),
{
}

/// What `Object.create` makes inherits from exactly what it was given, whatever is defined on it.
pub proof fn law_what_is_created_inherits_from_what_it_was_given(realm: RealmView, args: Seq<Value>)
    requires
        realm.fits(),
        realm.objects.len() < usize::MAX,
        created(realm, args).0 is Ok,
    ensures
        created(realm, args).0 == Ok::<Value, ErrorView>(
            Value::Object(realm.objects.len() as usize),
        ),
        created(realm, args).1.above(created(realm, args).0->Ok_0) == Some(argument(args, 0)),
{
    let (made, after) = realm.object_below(argument(args, 0));
    if argument(args, 1) != Value::Undefined {
        let read = read_all(after, descriptors_in(after, argument(args, 1)));
        lemma_definitions_keep_prototypes(
            after,
            made->Ok_0,
            read->Ok_0,
            realm.objects.len() as int,
        );
    }
}

/// Definitions change no prototype.
proof fn lemma_definitions_keep_prototypes(
    realm: RealmView,
    target: Value,
    list: Seq<(Seq<char>, Descriptor)>,
    object: int,
)
    requires
        target matches Value::Object(index) && index < realm.objects.len(),
        0 <= object < realm.objects.len(),
    ensures
        applied_all(realm, target, list).1.objects.len() == realm.objects.len(),
        applied_all(realm, target, list).1.objects[object].prototype
            == realm.objects[object].prototype,
    decreases list.len(),
{
    if list.len() > 0 {
        lemma_definitions_keep_prototypes(realm, target, list.drop_last(), object);
    }
}

/// An object is never above itself, and what is above something above it is above it too.
pub proof fn law_the_chain_above_an_object(
    realm: RealmView,
    upper: usize,
    middle: usize,
    object: usize,
)
    requires
        realm.fits(),
        object < realm.objects.len(),
    ensures
        realm.is_above(Value::Object(upper), object as int) ==> upper < object,
        !realm.is_above(Value::Object(object), object as int),
        realm.is_above(Value::Object(upper), middle as int) && realm.is_above(
            Value::Object(middle),
            object as int,
        ) ==> realm.is_above(Value::Object(upper), object as int),
    decreases object,
{
    assert(realm.object_fits(object as int));
    if let Some(above) = realm.objects[object as int].prototype {
        law_the_chain_above_an_object(realm, upper, middle, above);
        law_the_chain_above_an_object(realm, object, middle, above);
    }
}

/// A definition that is allowed keeps what it does not mention. A data property keeps its value and
/// each flag that is left out, an accessor keeps each half and flag that is left out, and a property
/// that changes from the one kind to the other keeps what both kinds have and starts empty in the
/// rest.
pub proof fn law_a_definition_keeps_what_it_does_not_mention(
    realm: RealmView,
    target: Value,
    key: Seq<char>,
    descriptor: Descriptor,
)
    requires
        realm.fits(),
        realm.knows(target),
        target is Object,
        realm.pairs.len() < usize::MAX,
        !((descriptor.getter is Some || descriptor.setter is Some) && (descriptor.value is Some
            || descriptor.writable is Some)),
        realm.own(target, key) is Some,
        applied(realm, target, key, descriptor).0 is Ok,
    ensures
        ({
            let (current, before) = realm.own(target, key)->0;
            let later = applied(realm, target, key, descriptor).1;
            let (held, after) = later.own(target, key)->0;
            let old_halves = realm.pairs[current->Pair_0 as int];
            let new_halves = later.pairs[held->Pair_0 as int];
            let asks_accessor = descriptor.getter is Some || descriptor.setter is Some;
            let asks_data = descriptor.value is Some || descriptor.writable is Some;
            &&& later.own(target, key) is Some
            &&& descriptor.enumerable is None ==> after.enumerable == before.enumerable
            &&& descriptor.configurable is None ==> after.configurable == before.configurable
            &&& !before.accessor && !asks_accessor ==> {
                &&& !after.accessor
                &&& descriptor.value is None ==> held == current
                &&& descriptor.writable is None ==> after.writable == before.writable
            }
            &&& before.accessor && !asks_data ==> {
                &&& after.accessor
                &&& descriptor.getter is None ==> new_halves.0 == old_halves.0
                &&& descriptor.setter is None ==> new_halves.1 == old_halves.1
            }
            &&& before.accessor && asks_data ==> {
                &&& !after.accessor
                &&& descriptor.value is None ==> held == Value::Undefined
                &&& descriptor.writable is None ==> !after.writable
            }
            &&& !before.accessor && asks_accessor ==> {
                &&& after.accessor
                &&& descriptor.getter is None ==> new_halves.0 is None
                &&& descriptor.setter is None ==> new_halves.1 is None
            }
        }),
{
    let (current, before) = realm.own(target, key)->0;
    lemma_stored_is_there(
        realm,
        target->Object_0,
        key,
        merged(realm, descriptor, realm.own(target, key)),
    );
    assert(realm.object_fits(target->Object_0 as int));
    lemma_found_is_there(realm.objects[target->Object_0 as int].properties, key, 0);
    let place = find(realm.objects[target->Object_0 as int].properties, key)->0;
    assert(realm.slot_fits(realm.objects[target->Object_0 as int].properties[place]));
}

/// Which definitions of a property that is there and not configurable are allowed. None may ask for it
/// to be configurable, to show when it is hidden or hide when it shows, or to be of the other kind. A
/// data property that is writable may have anything else asked of it, and one that is not may only
/// have asked of it what it is. A half of an accessor may only be what it is. What is refused names
/// the property.
pub proof fn law_which_definitions_of_a_fixed_property_are_allowed(
    realm: RealmView,
    target: Value,
    key: Seq<char>,
    descriptor: Descriptor,
)
    requires
        realm.own(target, key) matches Some((_, attributes)) && !attributes.configurable,
    ensures
        ({
            let (current, before) = realm.own(target, key)->0;
            let halves = realm.pairs[current->Pair_0 as int];
            let getter = match halves.0 {
                Some(getter) => getter,
                None => Value::Undefined,
            };
            let setter = match halves.1 {
                Some(setter) => setter,
                None => Value::Undefined,
            };
            let visibility = descriptor.enumerable == None::<bool> || descriptor.enumerable == Some(
                before.enumerable,
            );
            let as_data = descriptor.getter is None && descriptor.setter is None && (before.writable
                || (descriptor.writable != Some(true) && (descriptor.value matches Some(wanted)
                ==> realm.same(wanted, current))));
            let as_accessor = descriptor.value is None && descriptor.writable is None && (
            descriptor.getter matches Some(wanted) ==> realm.same(wanted, getter)) && (
            descriptor.setter matches Some(wanted) ==> realm.same(wanted, setter));
            &&& applied(realm, target, key, descriptor).0 is Ok <==> descriptor.configurable != Some(
                true,
            ) && visibility && (if before.accessor {
                as_accessor
            } else {
                as_data
            })
            &&& applied(realm, target, key, descriptor).0 matches Err(error) ==> error
                == ErrorView::Type("Cannot redefine property: "@ + key)
        }),
{
}

/// A descriptor says what its fields say, read through the chain above it: a field that is nowhere is
/// left out, a flag is whether its field counts as true, and a value and the halves are as they are.
/// It is refused when it is no object, when it mixes the two kinds, and when a half is neither a
/// function nor `undefined`.
pub proof fn law_a_descriptor_says_what_its_fields_say(realm: RealmView, value: Value)
    ensures
        !realm.is_plain_object(value) ==> descriptor_of(realm, value) == Err::<
            Descriptor,
            ErrorView,
        >(ErrorView::Type("Property description must be an object: "@ + realm.display_text(value))),
        descriptor_of(realm, value) matches Ok(read) ==> {
            &&& realm.looked_up(value, "value"@) == Ok::<Option<Value>, ErrorView>(read.value)
            &&& realm.looked_up(value, "get"@) == Ok::<Option<Value>, ErrorView>(read.getter)
            &&& realm.looked_up(value, "set"@) == Ok::<Option<Value>, ErrorView>(read.setter)
            &&& realm.looked_up(value, "writable"@) matches Ok(field) && (field is Some
                <==> read.writable is Some) && (field matches Some(held) ==> read.writable == Some(
                realm.truthy(held),
            ))
            &&& realm.looked_up(value, "enumerable"@) matches Ok(field) && (field is Some
                <==> read.enumerable is Some) && (field matches Some(held) ==> read.enumerable
                == Some(realm.truthy(held)))
            &&& realm.looked_up(value, "configurable"@) matches Ok(field) && (field is Some
                <==> read.configurable is Some) && (field matches Some(held) ==> read.configurable
                == Some(realm.truthy(held)))
            &&& (read.getter is None && read.setter is None) || (read.value is None
                && read.writable is None)
            &&& read.getter matches Some(half) ==> half == Value::Undefined || realm.calls(half)
            &&& read.setter matches Some(half) ==> half == Value::Undefined || realm.calls(half)
        },
        ({
            let getter = realm.looked_up(value, "get"@);
            let setter = realm.looked_up(value, "set"@);
            let readable = getter is Ok && setter is Ok && realm.looked_up(value, "value"@) is Ok
                && realm.looked_up(value, "writable"@) is Ok && realm.looked_up(
                value,
                "enumerable"@,
            ) is Ok && realm.looked_up(value, "configurable"@) is Ok;
            let mixed = (getter->Ok_0 is Some || setter->Ok_0 is Some) && (realm.looked_up(
                value,
                "value"@,
            )->Ok_0 is Some || realm.looked_up(value, "writable"@)->Ok_0 is Some);
            let bad_getter = getter->Ok_0 matches Some(half) && half != Value::Undefined
                && !realm.calls(half);
            let bad_setter = setter->Ok_0 matches Some(half) && half != Value::Undefined
                && !realm.calls(half);
            &&& realm.is_plain_object(value) && readable && mixed ==> descriptor_of(realm, value)
                == Err::<Descriptor, ErrorView>(
                ErrorView::Type(
                    "Invalid property descriptor. Cannot both specify accessors and a value or writable attribute, #<Object>"@,
                ),
            )
            &&& realm.is_plain_object(value) && readable && !mixed && bad_getter ==> descriptor_of(
                realm,
                value,
            ) == Err::<Descriptor, ErrorView>(
                ErrorView::Type(
                    "Getter"@ + " must be a function: "@ + realm.display_text(getter->Ok_0->0),
                ),
            )
            &&& realm.is_plain_object(value) && readable && !mixed && !bad_getter && bad_setter
                ==> descriptor_of(realm, value) == Err::<Descriptor, ErrorView>(
                ErrorView::Type(
                    "Setter"@ + " must be a function: "@ + realm.display_text(setter->Ok_0->0),
                ),
            )
            &&& realm.is_plain_object(value) && readable && !mixed && !bad_getter && !bad_setter
                ==> descriptor_of(realm, value) is Ok
        }),
{
}

/// What the methods every object inherits answer about an object and a key: whether it is there,
/// whether it shows, whether the object is above another, its tag and itself.
pub proof fn law_what_an_object_is_asked(realm: RealmView, object: usize, key: Value, below: Value)
    requires
        object < realm.objects.len(),
        text_of(realm, key) is Ok,
    ensures
        ({
            let this = Value::Object(object);
            let name = text_of(realm, key)->Ok_0;
            &&& owns(realm, Some(this), seq![key]) == Ok::<Value, ErrorView>(
                Value::Bool(realm.own(this, name) is Some),
            )
            &&& shows(realm, Some(this), seq![key]) == Ok::<Value, ErrorView>(
                Value::Bool(realm.own(this, name) matches Some((_, attributes))
                    && attributes.enumerable),
            )
            &&& below is Object ==> is_prototype(realm, Some(this), seq![below]) == Ok::<
                Value,
                ErrorView,
            >(Value::Bool(realm.is_above(this, below->Object_0 as int)))
            &&& !(below is Object) ==> is_prototype(realm, Some(this), seq![below]) == Ok::<
                Value,
                ErrorView,
            >(Value::Bool(false))
            &&& tagged(realm, Some(this)) == Ok::<Seq<char>, ErrorView>(
                if realm.objects[object as int].function is Some {
                    "[object Function]"@
                } else {
                    "[object Object]"@
                },
            )
            &&& tagged(realm, Some(Value::Undefined)) == Ok::<Seq<char>, ErrorView>(
                "[object Undefined]"@,
            )
            &&& tagged(realm, Some(Value::Null)) == Ok::<Seq<char>, ErrorView>("[object Null]"@)
            &&& subject(realm, Some(this), "Object.prototype.valueOf"@) == Ok::<Value, ErrorView>(
                this,
            )
            &&& called(realm, seq![this]) == (Ok::<Value, ErrorView>(this), realm)
            &&& prototype_answer(realm, seq![this]) == Ok::<Value, ErrorView>(
                match realm.objects[object as int].prototype {
                    Some(above) => Value::Object(above),
                    None => Value::Null,
                },
            )
        }),
{
}

/// One object is above another when it is what the other inherits from, or is above that.
pub proof fn law_what_is_above_an_object(realm: RealmView, upper: Value, object: usize)
    requires
        realm.fits(),
        object < realm.objects.len(),
    ensures
        realm.objects[object as int].prototype is None ==> !realm.is_above(upper, object as int),
        realm.objects[object as int].prototype matches Some(above) ==> (realm.is_above(
            upper,
            object as int,
        ) <==> upper == Value::Object(above) || realm.is_above(upper, above as int)),
{
    assert(realm.object_fits(object as int));
}

/// What there is to say of a value that is not an object: `undefined` and `null` cannot be converted
/// to one, and `Object` makes a new one out of either.
pub proof fn law_what_undefined_and_null_are_answered(realm: RealmView, value: Value, key: Value)
    requires
        realm.fits(),
    ensures
        value == Value::Undefined || value == Value::Null ==> {
            &&& prototype_answer(realm, seq![value]) == Err::<Value, ErrorView>(
                ErrorView::Type("Cannot convert undefined or null to object"@),
            )
            &&& described(realm, seq![value, key]).0 == Err::<Value, ErrorView>(
                ErrorView::Type("Cannot convert undefined or null to object"@),
            )
            &&& owns(realm, Some(value), seq![key]) == match text_of(realm, key) {
                Ok(_) => Err::<Value, ErrorView>(
                    ErrorView::Type("Cannot convert undefined or null to object"@),
                ),
                Err(error) => Err(error),
            }
            &&& called(realm, seq![value]) == (
                Ok::<Value, ErrorView>(Value::Object(realm.objects.len() as usize)),
                realm.with_object(RealmView::empty_object(Some(0usize))),
            )
        },
{
}

/// The object that describes a property holds the fields of its kind: the value and whether it is
/// writable, or the two halves, `undefined` where there is none, and the other two flags either way.
pub proof fn law_a_description_holds_the_fields_of_a_property(
    realm: RealmView,
    object: usize,
    key: Value,
)
    requires
        realm.fits(),
        object < realm.objects.len(),
        realm.objects.len() < usize::MAX,
        text_of(realm, key) is Ok,
        realm.own(Value::Object(object), text_of(realm, key)->Ok_0) is Some,
    ensures
        ({
            let (held, attributes) = realm.own(
                Value::Object(object),
                text_of(realm, key)->Ok_0,
            )->0;
            let (answer, later) = described(realm, seq![Value::Object(object), key]);
            let made = Value::Object(realm.objects.len() as usize);
            let plain = Attributes::data(true, true, true);
            let halves = realm.pairs[held->Pair_0 as int];
            &&& answer == Ok::<Value, ErrorView>(made)
            &&& later.above(made) == Some(Value::Object(0))
            &&& later.own(made, "enumerable"@) == Some((Value::Bool(attributes.enumerable), plain))
            &&& later.own(made, "configurable"@) == Some(
                (Value::Bool(attributes.configurable), plain),
            )
            &&& !attributes.accessor ==> later.own(made, "value"@) == Some((held, plain))
                && later.own(made, "writable"@) == Some((Value::Bool(attributes.writable), plain))
            &&& attributes.accessor ==> later.own(made, "get"@) == Some(
                (
                    match halves.0 {
                        Some(getter) => getter,
                        None => Value::Undefined,
                    },
                    plain,
                ),
            ) && later.own(made, "set"@) == Some(
                (
                    match halves.1 {
                        Some(setter) => setter,
                        None => Value::Undefined,
                    },
                    plain,
                ),
            )
        }),
{
    reveal_strlit("value");
    reveal_strlit("writable");
    reveal_strlit("enumerable");
    reveal_strlit("configurable");
    reveal_strlit("get");
    reveal_strlit("set");
    assert("get"@[0] == 'g' && "set"@[0] == 's');
    assert("value"@.len() == 5 && "writable"@.len() == 8 && "enumerable"@.len() == 10
        && "configurable"@.len() == 12 && "get"@.len() == 3 && "set"@.len() == 3);
    let (held, attributes) = realm.own(Value::Object(object), text_of(realm, key)->Ok_0)->0;
    let at = realm.objects.len() as int;
    let start = realm.with_object(RealmView::empty_object(Some(0usize)));
    let entries = description(realm, held, attributes);
    let plain = Attributes::data(true, true, true);
    let zero = start.with_entries(at, entries.take(0), plain);
    let one = start.with_entries(at, entries.take(1), plain);
    let two = start.with_entries(at, entries.take(2), plain);
    let three = start.with_entries(at, entries.take(3), plain);
    let four = start.with_entries(at, entries.take(4), plain);
    assert(entries.take(1).drop_last() =~= entries.take(0));
    assert(entries.take(2).drop_last() =~= entries.take(1));
    assert(entries.take(3).drop_last() =~= entries.take(2));
    assert(entries.take(4).drop_last() =~= entries.take(3));
    assert(entries.take(4) =~= entries);
    assert(one == zero.with_own(at, entries[0].0, entries[0].1, plain));
    assert(two == one.with_own(at, entries[1].0, entries[1].1, plain));
    assert(three == two.with_own(at, entries[2].0, entries[2].1, plain));
    assert(four == three.with_own(at, entries[3].0, entries[3].1, plain));
    lemma_only_that_key(zero, at, entries[0].0, entries[0].1, plain);
    lemma_only_that_key(one, at, entries[1].0, entries[1].1, plain);
    lemma_only_that_key(two, at, entries[2].0, entries[2].1, plain);
    lemma_only_that_key(three, at, entries[3].0, entries[3].1, plain);
}

/// Defining a key changes what is under that key and nothing else about the object.
pub(crate) proof fn lemma_only_that_key(
    realm: RealmView,
    object: int,
    key: Seq<char>,
    value: Value,
    attributes: Attributes,
)
    requires
        0 <= object < realm.objects.len() <= usize::MAX,
        well_listed(realm.objects[object].properties),
    ensures
        ({
            let later = realm.with_own(object, key, value, attributes);
            let this = Value::Object(object as usize);
            &&& well_listed(later.objects[object].properties)
            &&& later.own(this, key) == Some((value, attributes))
            &&& forall|name: Seq<char>| name != key ==> #[trigger] later.own(this, name)
                == realm.own(this, name)
            &&& later.objects.len() == realm.objects.len()
            &&& later.objects[object].prototype == realm.objects[object].prototype
            &&& later.objects[object].function == realm.objects[object].function
            &&& later.globals == realm.globals
            &&& later.texts == realm.texts
            &&& forall|k: int| 0 <= k < realm.objects.len() && k != object ==> #[trigger]
                later.objects[k] == realm.objects[k]
        }),
{
    let properties = realm.objects[object].properties;
    let added = PropertyView { key, value, attributes };
    lemma_with_property_is_well_listed(properties, added);
    lemma_find_after_define(properties, added, key);
    assert forall|name: Seq<char>| name != key implies #[trigger] realm.with_own(
        object,
        key,
        value,
        attributes,
    ).own(Value::Object(object as usize), name) == realm.own(
        Value::Object(object as usize),
        name,
    ) by {
        lemma_find_after_define(properties, added, name);
    }
}

/// Several definitions in a row are each made on what the ones before left, until one is refused.
pub proof fn law_definitions_are_made_one_after_the_other(
    realm: RealmView,
    target: Value,
    list: Seq<(Seq<char>, Descriptor)>,
    last: (Seq<char>, Descriptor),
)
    ensures
        applied_all(realm, target, Seq::empty()) == (Ok::<(), ErrorView>(()), realm),
        match applied_all(realm, target, list) {
            (Err(error), after) => applied_all(realm, target, list.push(last)) == (
                Err::<(), ErrorView>(error),
                after,
            ),
            (Ok(_), after) => applied_all(realm, target, list.push(last)) == applied(
                after,
                target,
                last.0,
                last.1,
            ),
        },
{
    assert(list.push(last).drop_last() =~= list);
}

/// What `defineProperties` and `create` do with their arguments: the properties the source shows are
/// the descriptors, the answer is the target, and what is no object is refused by name.
pub proof fn law_what_defining_many_answers(realm: RealmView, target: Value, source: Value)
    ensures
        !(target is Object) ==> defined_all(realm, target, source) == (
            Err::<Value, ErrorView>(
                ErrorView::Type("Object.defineProperties called on non-object"@),
            ),
            realm,
        ),
        target is Object && (source == Value::Undefined || source == Value::Null) ==> defined_all(
            realm,
            target,
            source,
        ) == (
            Err::<Value, ErrorView>(
                ErrorView::Type("Cannot convert undefined or null to object"@),
            ),
            realm,
        ),
        target is Object && source is Object ==> match read_all(
            realm,
            crate::builtins::realm::shown(realm.objects[source->Object_0 as int].properties),
        ) {
            Err(error) => defined_all(realm, target, source) == (
                Err::<Value, ErrorView>(error),
                realm,
            ),
            Ok(list) => match applied_all(realm, target, list) {
                (Err(error), after) => defined_all(realm, target, source) == (
                    Err::<Value, ErrorView>(error),
                    after,
                ),
                (Ok(_), after) => defined_all(realm, target, source) == (
                    Ok::<Value, ErrorView>(target),
                    after,
                ),
            },
        },
        realm.calls(source) ==> created(realm, seq![source]) == (
            Err::<Value, ErrorView>(
                ErrorView::Unsupported(
                    "Object.create is not supported yet for a function, because a prototype link can only point at an ordinary object"@,
                ),
            ),
            realm,
        ),
        !realm.calls(source) ==> created(realm, seq![source]) == realm.object_below(source),
{
}

/// The descriptors are read in order, each from what the property holds, and the first that cannot be
/// read is the error.
pub proof fn law_descriptors_are_read_in_order(
    realm: RealmView,
    entries: Seq<PropertyView>,
    last: PropertyView,
)
    ensures
        read_all(realm, Seq::empty()) == Ok::<Seq<(Seq<char>, Descriptor)>, ErrorView>(Seq::empty()),
        match read_all(realm, entries) {
            Err(error) => read_all(realm, entries.push(last)) == Err::<
                Seq<(Seq<char>, Descriptor)>,
                ErrorView,
            >(error),
            Ok(before) => {
                &&& last.attributes.accessor ==> read_all(realm, entries.push(last)) is Err
                &&& !last.attributes.accessor ==> match descriptor_of(realm, last.value) {
                    Err(error) => read_all(realm, entries.push(last)) == Err::<
                        Seq<(Seq<char>, Descriptor)>,
                        ErrorView,
                    >(error),
                    Ok(descriptor) => read_all(realm, entries.push(last)) == Ok::<
                        Seq<(Seq<char>, Descriptor)>,
                        ErrorView,
                    >(before.push((last.key, descriptor))),
                }
            },
        },
{
    assert(entries.push(last).drop_last() =~= entries);
}

/// What a definition of one property answers: the target when it is made, and the first thing that is
/// wrong otherwise, the target before the key and the key before the descriptor.
pub proof fn law_what_defining_one_answers(
    realm: RealmView,
    target: Value,
    key: Value,
    descriptor: Value,
)
    ensures
        ({
            let answer = defined(realm, seq![target, key, descriptor]);
            &&& !(target is Object) ==> answer == (
                Err::<Value, ErrorView>(
                    ErrorView::Type("Object.defineProperty called on non-object"@),
                ),
                realm,
            )
            &&& target is Object && text_of(realm, key) is Err ==> answer == (
                Err::<Value, ErrorView>(text_of(realm, key)->Err_0),
                realm,
            )
            &&& target is Object && text_of(realm, key) is Ok && descriptor_of(
                realm,
                descriptor,
            ) is Err ==> answer == (
                Err::<Value, ErrorView>(descriptor_of(realm, descriptor)->Err_0),
                realm,
            )
            &&& target is Object && text_of(realm, key) is Ok && descriptor_of(
                realm,
                descriptor,
            ) is Ok ==> match applied(
                realm,
                target,
                text_of(realm, key)->Ok_0,
                descriptor_of(realm, descriptor)->Ok_0,
            ) {
                (Err(error), after) => answer == (Err::<Value, ErrorView>(error), after),
                (Ok(_), after) => answer == (Ok::<Value, ErrorView>(target), after),
            }
        }),
{
}

/// What is refused by name: boxing a primitive, asking about one, and describing what a function or
/// text does not carry yet. Describing a key that is not there, or one of a number or a truth value,
/// is `undefined`.
pub proof fn law_what_a_primitive_is_answered(
    realm: RealmView,
    value: Value,
    key: Value,
    object: usize,
)
    requires
        text_of(realm, key) is Ok,
        object < realm.objects.len(),
        value is Bool || value is Number || value is Text,
    ensures
        called(realm, seq![value]) == (
            Err::<Value, ErrorView>(
                ErrorView::Unsupported(
                    "Object("@ + realm.display_text(value)
                        + ") is not supported yet, because boxing a primitive needs the wrapper prototypes"@,
                ),
            ),
            realm,
        ),
        prototype_answer(realm, seq![value]) == Err::<Value, ErrorView>(
            ErrorView::Unsupported(
                "Object.getPrototypeOf is not supported yet for a primitive, because it needs the wrapper prototypes"@,
            ),
        ),
        tagged(realm, Some(value)) == Err::<Seq<char>, ErrorView>(
            ErrorView::Unsupported(
                "Object.prototype.toString is not supported yet for a primitive, because it needs the wrapper prototypes"@,
            ),
        ),
        owns(realm, Some(value), seq![key]) == Err::<Value, ErrorView>(
            ErrorView::Unsupported(
                "Object.prototype.hasOwnProperty"@
                    + " is not supported yet for a value that is not an ordinary object, because it needs the wrapper prototypes"@,
            ),
        ),
        value is Text ==> described(realm, seq![value, key]) == (
            Err::<Value, ErrorView>(
                ErrorView::Unsupported(
                    "Object.getOwnPropertyDescriptor is not supported yet for a string, because it needs the wrapper prototypes"@,
                ),
            ),
            realm,
        ),
        !(value is Text) ==> described(realm, seq![value, key]) == (
            Ok::<Value, ErrorView>(Value::Undefined),
            realm,
        ),
        ({
            let name = text_of(realm, key)->Ok_0;
            let carried_later = realm.objects[object as int].function is Some && (name == "name"@
                || name == "length"@);
            realm.own(Value::Object(object), name) is None && !carried_later ==> described(
                realm,
                seq![Value::Object(object), key],
            ) == (Ok::<Value, ErrorView>(Value::Undefined), realm)
        }),
{
}

/// A property that was not there is of the kind it was asked to be, and a half of an accessor that was
/// not asked for is absent.
pub proof fn law_a_new_property_is_of_the_kind_it_was_asked_to_be(
    realm: RealmView,
    target: Value,
    key: Seq<char>,
    descriptor: Descriptor,
)
    requires
        realm.fits(),
        realm.knows(target),
        target is Object,
        realm.pairs.len() < usize::MAX,
        realm.own(target, key) is None,
    ensures
        ({
            let later = applied(realm, target, key, descriptor).1;
            let (held, attributes) = later.own(target, key)->0;
            let halves = later.pairs[held->Pair_0 as int];
            &&& attributes.accessor <==> descriptor.getter is Some || descriptor.setter is Some
            &&& attributes.accessor && descriptor.getter is None ==> halves.0 is None
            &&& attributes.accessor && descriptor.setter is None ==> halves.1 is None
            &&& attributes.accessor ==> !attributes.writable
        }),
{
    lemma_stored_is_there(
        realm,
        target->Object_0,
        key,
        merged(realm, descriptor, realm.own(target, key)),
    );
}

/// A method that every object inherits says by its own name that it cannot be called on nothing, nor
/// on a primitive yet. One that takes a key converts the key first.
pub proof fn law_what_a_method_says_it_cannot_be_called_on(
    realm: RealmView,
    value: Value,
    key: Value,
)
    requires
        value is Bool || value is Number || value is Text,
    ensures
        text_of(realm, key) matches Err(error) ==> owns(realm, Some(value), seq![key]) == Err::<
            Value,
            ErrorView,
        >(error) && shows(realm, Some(value), seq![key]) == Err::<Value, ErrorView>(error),
        text_of(realm, key) is Ok ==> owns(realm, None, seq![key]) == Err::<Value, ErrorView>(
            ErrorView::Unsupported(
                "Object.prototype.hasOwnProperty"@
                    + " called on nothing needs globalThis, which is not supported yet"@,
            ),
        ) && shows(realm, None, seq![key]) == Err::<Value, ErrorView>(
            ErrorView::Unsupported(
                "Object.prototype.propertyIsEnumerable"@
                    + " called on nothing needs globalThis, which is not supported yet"@,
            ),
        ) && shows(realm, Some(value), seq![key]) == Err::<Value, ErrorView>(
            ErrorView::Unsupported(
                "Object.prototype.propertyIsEnumerable"@
                    + " is not supported yet for a value that is not an ordinary object, because it needs the wrapper prototypes"@,
            ),
        ),
        is_prototype(realm, None, seq![key]) == Err::<Value, ErrorView>(
            ErrorView::Unsupported(
                "Object.prototype.isPrototypeOf"@
                    + " called on nothing needs globalThis, which is not supported yet"@,
            ),
        ),
        is_prototype(realm, Some(value), seq![key]) == Err::<Value, ErrorView>(
            ErrorView::Unsupported(
                "Object.prototype.isPrototypeOf"@
                    + " is not supported yet for a value that is not an ordinary object, because it needs the wrapper prototypes"@,
            ),
        ),
        tagged(realm, None) == Err::<Seq<char>, ErrorView>(
            ErrorView::Unsupported(
                "Object.prototype.toString"@
                    + " called on nothing needs globalThis, which is not supported yet"@,
            ),
        ),
{
}

} // verus!
