//! `Error` and the six standard subclasses.
//!
//! # One body, seven constructors
//!
//! The seven differ in exactly two things: the name on their prototype, and which prototype a new
//! instance gets. So there is one shared body, and the thing that tells them apart is the
//! [`ErrorKind`].
//!
//! # What is not here
//!
//! `stack`, `Object.getPrototypeOf(TypeError) === Error`, and `AggregateError`, which needs arrays.

use vstd::prelude::*;

use crate::builtins::convert::{
    describe_error, error_within, lemma_conversion_ignores_new, lemma_reading_ignores_new, text_of,
    to_text,
};
use crate::builtins::object::{answered, lemma_only_that_key};
use crate::builtins::realm::{
    arg, argument, lemma_growing_is_reflexive, lemma_growing_is_transitive,
    lemma_growing_keeps_values, outcome, receiver_of, this_value, Realm, RealmView,
};
use crate::builtins::value::{Attributes, ErrorKind, ErrorView, Native, RuntimeError, Value};

verus! {

/// A realm with one error constructor in it, its prototype inheriting from `parent`. The prototype is
/// the object before the last.
pub open spec fn with_kind(realm: RealmView, kind: ErrorKind, parent: usize) -> RealmView {
    let prototype = realm.objects.len() as usize;
    let constructor = (realm.objects.len() + 1) as usize;
    let name = realm.texts.len() as usize;
    let message = (realm.texts.len() + 1) as usize;
    let hidden = Attributes::data(true, false, true);
    let made = realm.with_object(RealmView::empty_object(Some(parent))).with_object(
        RealmView::native_object(kind.label(), Native::Error(kind), true),
    );
    let linked = made.with_own(
        constructor as int,
        "prototype"@,
        Value::Object(prototype),
        Attributes::data(false, false, false),
    ).with_own(prototype as int, "constructor"@, Value::Object(constructor), hidden);
    let named = linked.with_text(kind.label()).with_own(
        prototype as int,
        "name"@,
        Value::Text(name),
        hidden,
    );
    let furnished = named.with_text(""@).with_own(
        prototype as int,
        "message"@,
        Value::Text(message),
        hidden,
    );
    let registered = RealmView {
        error_prototypes: furnished.error_prototypes.update(kind.position(), Some(prototype)),
        ..furnished
    };
    registered.with_global(kind.label(), Value::Object(constructor))
}

/// A realm with several error constructors in it whose prototypes inherit from one parent.
pub open spec fn with_kinds(realm: RealmView, kinds: Seq<ErrorKind>, parent: usize) -> RealmView
    decreases kinds.len(),
{
    if kinds.len() == 0 {
        realm
    } else {
        with_kind(with_kinds(realm, kinds.drop_last(), parent), kinds.last(), parent)
    }
}

/// A realm with the seven error constructors in it: `Error` below `Object.prototype`, with the one
/// `toString` the others inherit, and the six others below `Error.prototype`.
pub open spec fn installed(realm: RealmView) -> RealmView {
    let base = realm.objects.len() as usize;
    let first = with_kind(realm, ErrorKind::Error, 0);
    let method = Value::Object(first.objects.len() as usize);
    let converted = first.with_object(
        RealmView::native_object("toString"@, Native::ErrorToString, false),
    ).with_own(base as int, "toString"@, method, Attributes::data(true, false, true));
    with_kinds(
        converted,
        seq![
            ErrorKind::Type,
            ErrorKind::Range,
            ErrorKind::Reference,
            ErrorKind::Syntax,
            ErrorKind::Eval,
            ErrorKind::Uri,
        ],
        base,
    )
}

/// Put the seven error constructors in the global scope.
///
/// Runs after `Object` and `Function`, because every prototype here inherits from
/// `Object.prototype` and every constructor here is a function.
pub fn install(realm: &mut Realm)
    requires
        old(realm)@.fits(),
    ensures
        final(realm)@.fits(),
        old(realm)@.grows_into(final(realm)@),
        final(realm)@ == installed(old(realm)@),
{
    let ghost before = realm@;
    let base = install_kind(realm, ErrorKind::Error, 0);
    let ghost first = realm@;
    // Only on `Error.prototype`. The six subclasses inherit it rather than each carrying a copy.
    let method = realm.native_function("toString", Native::ErrorToString);
    let ghost second = realm@;
    proof {
        lemma_growing_is_transitive(before, first, second);
        lemma_growing_keeps_values(first, second, Value::Object(base));
    }
    realm.define_property(Value::Object(base), "toString", method, Attributes::builtin());
    let ghost converted = realm@;
    proof {
        lemma_growing_is_transitive(before, second, converted);
        lemma_growing_is_transitive(first, second, converted);
    }
    let kinds = [
        ErrorKind::Type,
        ErrorKind::Range,
        ErrorKind::Reference,
        ErrorKind::Syntax,
        ErrorKind::Eval,
        ErrorKind::Uri,
    ];
    let mut at: usize = 0;
    proof {
        lemma_growing_is_reflexive(converted);
        lemma_growing_keeps_values(first, converted, Value::Object(base));
        assert(kinds@.take(0) =~= Seq::<ErrorKind>::empty());
    }
    while at < 6
        invariant
            at <= 6,
            kinds@.len() == 6,
            realm@.fits(),
            converted.grows_into(realm@),
            converted.is_plain_object(Value::Object(base)),
            realm@ == with_kinds(converted, kinds@.take(at as int), base),
        decreases 6 - at,
    {
        let ghost held = realm@;
        let kind: ErrorKind = kinds[at];
        proof {
            let next = kinds@.take(at + 1);
            assert(next.drop_last() =~= kinds@.take(at as int));
            assert(next.last() == kind);
            lemma_growing_keeps_values(converted, held, Value::Object(base));
        }
        let _ = install_kind(realm, kind, base);
        proof {
            lemma_growing_is_transitive(converted, held, realm@);
        }
        at = at + 1;
    }
    proof {
        assert(kinds@.take(6) =~= seq![
            ErrorKind::Type,
            ErrorKind::Range,
            ErrorKind::Reference,
            ErrorKind::Syntax,
            ErrorKind::Eval,
            ErrorKind::Uri,
        ]);
        lemma_growing_is_transitive(before, converted, realm@);
    }
}

/// One constructor, its prototype, the links between the two, and the global name.
///
/// Hands back the prototype, because `Error`'s is what the other six inherit from and what `toString`
/// gets defined on.
///
/// The three properties go on in the order Node reports them, `constructor` then `name` then
/// `message`.
fn install_kind(realm: &mut Realm, kind: ErrorKind, parent: usize) -> (prototype: usize)
    requires
        old(realm)@.fits(),
        old(realm)@.is_plain_object(Value::Object(parent)),
    ensures
        final(realm)@.fits(),
        old(realm)@.grows_into(final(realm)@),
        final(realm)@ == with_kind(old(realm)@, kind, parent),
        prototype == old(realm)@.objects.len(),
        final(realm)@.is_plain_object(Value::Object(prototype)),
{
    let ghost start = realm@;
    let name = kind.name();
    let prototype = realm.object_count();
    let made = realm.new_object_with_prototype(Value::Object(parent));
    let object = Value::Object(prototype);
    let ghost one = realm@;
    let constructor = realm.native_constructor(name, Native::Error(kind));
    let ghost two = realm@;
    proof {
        lemma_growing_is_transitive(start, one, two);
        lemma_growing_keeps_values(one, two, object);
    }
    // Nothing can rewrite `prototype`, because `new` reads it to build the instance and moving it
    // would move every error the engine throws afterwards.
    realm.define_property(constructor, "prototype", object, Attributes::none());
    let ghost three = realm@;
    proof {
        lemma_growing_is_transitive(start, two, three);
        lemma_growing_keeps_values(two, three, object);
        lemma_growing_keeps_values(two, three, constructor);
    }
    realm.define_property(object, "constructor", constructor, Attributes::builtin());
    let ghost four = realm@;
    proof {
        lemma_growing_is_transitive(start, three, four);
        lemma_growing_keeps_values(three, four, object);
        lemma_growing_keeps_values(three, four, constructor);
    }
    let text = realm.new_string(name);
    let ghost five = realm@;
    proof {
        lemma_growing_is_transitive(start, four, five);
        lemma_growing_keeps_values(four, five, object);
        lemma_growing_keeps_values(four, five, constructor);
    }
    realm.define_property(object, "name", text, Attributes::builtin());
    let ghost six = realm@;
    proof {
        lemma_growing_is_transitive(start, five, six);
        lemma_growing_keeps_values(five, six, object);
        lemma_growing_keeps_values(five, six, constructor);
    }
    // The empty string and not the absence of a property. `new Error().message` is "" and it is
    // inherited from here.
    let empty = realm.new_string("");
    let ghost seven = realm@;
    proof {
        lemma_growing_is_transitive(start, six, seven);
        lemma_growing_keeps_values(six, seven, object);
        lemma_growing_keeps_values(six, seven, constructor);
    }
    realm.define_property(object, "message", empty, Attributes::builtin());
    let ghost eight = realm@;
    proof {
        lemma_growing_is_transitive(start, seven, eight);
        lemma_growing_keeps_values(seven, eight, object);
        lemma_growing_keeps_values(seven, eight, constructor);
    }
    // What the engine builds its own errors from, so this has to happen even for a kind no program
    // ever names.
    realm.set_error_prototype(kind, prototype);
    let ghost nine = realm@;
    proof {
        lemma_growing_is_transitive(start, eight, nine);
        lemma_growing_keeps_values(eight, nine, object);
        lemma_growing_keeps_values(eight, nine, constructor);
    }
    realm.define_global(name, constructor);
    proof {
        lemma_growing_is_transitive(start, nine, realm@);
        lemma_growing_keeps_values(nine, realm@, object);
    }
    prototype
}

/// The object an error constructor fills in, and the realm that has it.
pub open spec fn instance(realm: RealmView, receiver: Option<Value>, kind: ErrorKind) -> (
    Result<Value, ErrorView>,
    RealmView,
) {
    if realm.constructing {
        (receiver_of(receiver, kind.label()), realm)
    } else {
        match realm.error_prototypes[kind.position()] {
            None => (
                Err(
                    ErrorView::Unsupported(
                        kind.label()
                            + "() needs the error prototypes, which this realm was built without"@,
                    ),
                ),
                realm,
            ),
            Some(prototype) => (
                Ok(Value::Object(realm.objects.len() as usize)),
                realm.with_object(RealmView::empty_object(Some(prototype))),
            ),
        }
    }
}

/// An error with its message put on it, when there is one.
pub open spec fn with_message(realm: RealmView, object: int, message: Value) -> (
    Result<(), ErrorView>,
    RealmView,
) {
    if message == Value::Undefined {
        (Ok(()), realm)
    } else {
        match text_of(realm, message) {
            Err(error) => (Err(error), realm),
            Ok(text) => (
                Ok(()),
                realm.with_text(text).with_own(
                    object,
                    "message"@,
                    Value::Text(realm.texts.len() as usize),
                    Attributes::data(true, false, true),
                ),
            ),
        }
    }
}

/// An error with its cause put on it, when the options have one.
pub open spec fn with_cause(realm: RealmView, object: int, options: Value) -> (
    Result<(), ErrorView>,
    RealmView,
) {
    match realm.looked_up(options, "cause"@) {
        Err(error) => (Err(error), realm),
        Ok(None) => (Ok(()), realm),
        Ok(Some(cause)) => (
            Ok(()),
            realm.with_own(object, "cause"@, cause, Attributes::data(true, false, true)),
        ),
    }
}

/// What an error constructor answers, and the realm after it.
pub open spec fn built(
    realm: RealmView,
    receiver: Option<Value>,
    args: Seq<Value>,
    kind: ErrorKind,
) -> (Result<Value, ErrorView>, RealmView) {
    match instance(realm, receiver, kind) {
        (Err(error), after) => (Err(error), after),
        (Ok(object), made) => match with_message(
            made,
            object->Object_0 as int,
            argument(args, 0),
        ) {
            (Err(error), after) => (Err(error), after),
            (Ok(_), spoken) => match with_cause(
                spoken,
                object->Object_0 as int,
                argument(args, 1),
            ) {
                (Err(error), after) => (Err(error), after),
                (Ok(_), after) => (Ok(object), after),
            },
        },
    }
}

/// `Error(message, options)`, and the other six with two substitutions.
///
/// `new Error('x')` and `Error('x')` do the same thing. The difference is only where the object comes
/// from: `new` has already made one out of the constructor's `prototype` and handed it over as the
/// receiver, and a plain call has to make its own out of the intrinsic.
pub fn build(realm: &mut Realm, receiver: Option<Value>, args: &[Value], kind: ErrorKind) -> (answer:
    Result<Value, RuntimeError>)
    requires
        old(realm)@.fits(),
        old(realm)@.knows_all(args@),
        receiver matches Some(value) ==> old(realm)@.knows(value),
        old(realm)@.constructing && receiver is Some ==> receiver->0 is Object,
    ensures
        final(realm)@.fits(),
        old(realm)@.grows_into(final(realm)@),
        (outcome(answer), final(realm)@) == built(old(realm)@, receiver, args@, kind),
        answer matches Ok(value) ==> final(realm)@.knows(value),
{
    let ghost before = realm@;
    proof {
        lemma_growing_is_reflexive(before);
    }
    let object = if realm.called_with_new() {
        match this_value(receiver, kind.name()) {
            Ok(object) => object,
            Err(error) => {
                return Err(error);
            },
        }
    } else {
        let prototype = match realm.error_prototype(kind) {
            Some(prototype) => prototype,
            None => {
                let mut message = kind.name().to_owned();
                message.append(
                    "() needs the error prototypes, which this realm was built without",
                );
                return Err(RuntimeError::Unsupported(message));
            },
        };
        let index = realm.object_count();
        let made = realm.new_object_with_prototype(prototype);
        Value::Object(index)
    };
    let ghost made = realm@;
    assert(instance(before, receiver, kind) == (Ok::<Value, ErrorView>(object), made));
    // Defined only when there is one. `new Error()` has no own `message` at all and reads the empty
    // string off its prototype.
    let message = arg(args, 0);
    proof {
        lemma_growing_keeps_values(before, made, message);
    }
    match put_message(realm, object, message) {
        Ok(()) => {},
        Err(error) => {
            return Err(error);
        },
    }
    let ghost spoken = realm@;
    let options = arg(args, 1);
    proof {
        lemma_growing_is_transitive(before, made, spoken);
        lemma_growing_keeps_values(made, spoken, object);
        lemma_growing_keeps_values(before, spoken, options);
    }
    match put_cause(realm, object, options) {
        Ok(()) => {},
        Err(error) => {
            return Err(error);
        },
    }
    proof {
        lemma_growing_is_transitive(before, spoken, realm@);
        lemma_growing_keeps_values(spoken, realm@, object);
    }
    Ok(object)
}

fn put_message(realm: &mut Realm, object: Value, message: Value) -> (verdict: Result<
    (),
    RuntimeError,
>)
    requires
        old(realm)@.fits(),
        old(realm)@.knows(object),
        object is Object,
        old(realm)@.knows(message),
    ensures
        final(realm)@.fits(),
        old(realm)@.grows_into(final(realm)@),
        (outcome(verdict), final(realm)@) == with_message(
            old(realm)@,
            object->Object_0 as int,
            message,
        ),
{
    let ghost before = realm@;
    proof {
        lemma_growing_is_reflexive(before);
    }
    if message.is_undefined() {
        return Ok(());
    }
    let text = match to_text(realm, message) {
        Ok(text) => text,
        Err(error) => {
            return Err(error);
        },
    };
    let text = realm.new_string(text.as_str());
    let ghost held = realm@;
    proof {
        lemma_growing_keeps_values(before, held, object);
    }
    realm.define_property(object, "message", text, Attributes::builtin());
    proof {
        lemma_growing_is_transitive(before, held, realm@);
    }
    Ok(())
}

/// `cause` is present when the options bag has one anywhere on its chain, including when its value is
/// `undefined`, which is why `new Error('x', {})` has no `cause`.
fn put_cause(realm: &mut Realm, object: Value, options: Value) -> (verdict: Result<
    (),
    RuntimeError,
>)
    requires
        old(realm)@.fits(),
        old(realm)@.knows(object),
        object is Object,
        old(realm)@.knows(options),
    ensures
        final(realm)@.fits(),
        old(realm)@.grows_into(final(realm)@),
        (outcome(verdict), final(realm)@) == with_cause(
            old(realm)@,
            object->Object_0 as int,
            options,
        ),
{
    proof {
        lemma_growing_is_reflexive(realm@);
    }
    match realm.lookup(options, "cause") {
        Ok(Some(cause)) => {
            realm.define_property(object, "cause", cause, Attributes::builtin());
            Ok(())
        },
        Ok(None) => Ok(()),
        Err(error) => Err(error),
    }
}

/// What `Error.prototype.toString` says.
pub open spec fn said(realm: RealmView, receiver: Option<Value>) -> Result<Seq<char>, ErrorView> {
    match receiver_of(receiver, "Error.prototype.toString"@) {
        Err(error) => Err(error),
        Ok(value) => if value is Object {
            error_within(realm, value, Seq::empty())
        } else {
            Err(
                ErrorView::Type(
                    "Error.prototype.toString called on "@ + realm.display_text(value)
                        + ", which is not an object"@,
                ),
            )
        },
    }
}

/// `Error.prototype.toString`, which is what `String(err)` and `'' + err` go through.
///
/// It reads `name` and `message` off the receiver rather than knowing either. No name is "Error", no
/// message is "", and an empty half is dropped along with the colon.
pub fn to_string(realm: &mut Realm, receiver: Option<Value>) -> (answer: Result<
    Value,
    RuntimeError,
>)
    requires
        old(realm)@.fits(),
        receiver matches Some(value) ==> old(realm)@.knows(value),
    ensures
        final(realm)@.fits(),
        old(realm)@.grows_into(final(realm)@),
        (outcome(answer), final(realm)@) == answered(old(realm)@, said(old(realm)@, receiver)),
        answer matches Ok(value) ==> final(realm)@.knows(value),
{
    proof {
        lemma_growing_is_reflexive(realm@);
    }
    let value = match this_value(receiver, "Error.prototype.toString") {
        Ok(value) => value,
        Err(error) => {
            return Err(error);
        },
    };
    if !realm.is_ordinary_object(value) && !realm.is_callable(value) {
        let mut message = "Error.prototype.toString called on ".to_owned();
        let what = realm.display(value);
        message.append(what.as_str());
        message.append(", which is not an object");
        return Err(RuntimeError::Type(message));
    }
    match describe_error(realm, value) {
        Ok(text) => Ok(realm.new_string(text.as_str())),
        Err(error) => Err(error),
    }
}

/// `new` and a plain call build the same thing: handing over an object that `new` made out of the
/// constructor's `prototype` ends where a plain call that makes its own ends.
pub proof fn law_new_and_a_plain_call_build_the_same_thing(
    realm: RealmView,
    args: Seq<Value>,
    kind: ErrorKind,
    prototype: usize,
)
    requires
        !realm.constructing,
        realm.error_prototypes[kind.position()] == Some(prototype),
    ensures
        ({
            let made = realm.with_object(RealmView::empty_object(Some(prototype)));
            let handed = RealmView { constructing: true, ..made };
            let object = Value::Object(realm.objects.len() as usize);
            let (answer, after) = built(realm, None, args, kind);
            built(handed, Some(object), args, kind) == (
                answer,
                RealmView { constructing: true, ..after },
            )
        }),
{
    let made = realm.with_object(RealmView::empty_object(Some(prototype)));
    let object = realm.objects.len() as usize;
    lemma_conversion_ignores_new(made, argument(args, 0), Seq::empty(), true);
    let spoken = with_message(made, object as int, argument(args, 0)).1;
    lemma_reading_ignores_new(spoken, argument(args, 1), "cause"@, true);
}

/// What an error constructor puts on the object it fills in: a message when it was given one that is
/// not `undefined`, as the text it converts to, and a cause when the options have one, both hidden.
/// Without `new` the object is a new one below the constructor's prototype.
pub proof fn law_what_an_error_is_built_with(realm: RealmView, args: Seq<Value>, kind: ErrorKind)
    requires
        realm.fits(),
        !realm.constructing,
        realm.objects.len() < usize::MAX,
        realm.texts.len() < usize::MAX,
        realm.error_prototypes[kind.position()] is Some,
        built(realm, None, args, kind).0 is Ok,
    ensures
        ({
            let (answer, later) = built(realm, None, args, kind);
            let this = Value::Object(realm.objects.len() as usize);
            let made = realm.with_object(
                RealmView::empty_object(realm.error_prototypes[kind.position()]),
            );
            let hidden = Attributes::data(true, false, true);
            &&& answer == Ok::<Value, ErrorView>(this)
            &&& later.above(this) == Some(
                Value::Object(realm.error_prototypes[kind.position()]->0),
            )
            &&& argument(args, 0) == Value::Undefined ==> later.own(this, "message"@) is None
            &&& argument(args, 0) != Value::Undefined ==> later.own(this, "message"@) == Some(
                (Value::Text(realm.texts.len() as usize), hidden),
            ) && text_of(made, argument(args, 0)) == Ok::<Seq<char>, ErrorView>(
                later.texts[realm.texts.len() as int],
            )
            &&& !(argument(args, 1) is Object) ==> later.own(this, "cause"@) is None
        }),
{
    reveal_strlit("message");
    reveal_strlit("cause");
    assert("message"@.len() == 7 && "cause"@.len() == 5);
    let at = realm.objects.len() as int;
    let made = realm.with_object(RealmView::empty_object(realm.error_prototypes[kind.position()]));
    let hidden = Attributes::data(true, false, true);
    let text = text_of(made, argument(args, 0));
    let spoken = with_message(made, at, argument(args, 0)).1;
    if argument(args, 0) != Value::Undefined {
        let value = Value::Text(made.texts.len() as usize);
        lemma_only_that_key(made.with_text(text->Ok_0), at, "message"@, value, hidden);
    }
    if let Ok(Some(cause)) = spoken.looked_up(argument(args, 1), "cause"@) {
        lemma_only_that_key(spoken, at, "cause"@, cause, hidden);
    }
}

/// What `Error.prototype.toString` answers: what the object says, and a refusal for what is no object.
pub proof fn law_what_error_to_string_answers(realm: RealmView, value: Value)
    ensures
        value is Object ==> said(realm, Some(value)) == error_within(realm, value, Seq::empty()),
        !(value is Object) ==> said(realm, Some(value)) == Err::<Seq<char>, ErrorView>(
            ErrorView::Type(
                "Error.prototype.toString called on "@ + realm.display_text(value)
                    + ", which is not an object"@,
            ),
        ),
{
}

/// Reading something that was there before finds the same once a new object is there.
proof fn lemma_reading_ignores_a_new_object(
    realm: RealmView,
    later: RealmView,
    object: int,
    key: Seq<char>,
)
    requires
        realm.fits(),
        0 <= object < realm.objects.len() <= later.objects.len(),
        forall|k: int| 0 <= k < realm.objects.len() ==> #[trigger] later.objects[k]
            == realm.objects[k],
    ensures
        later.inherited(object, key) == realm.inherited(object, key),
    decreases object,
{
    assert(realm.object_fits(object));
    if let Some(above) = realm.objects[object].prototype {
        lemma_reading_ignores_a_new_object(realm, later, above as int, key);
    }
}

/// An error has the cause its options have, hidden, and none when they have none. When a constructor
/// has no prototype to build from, when the message cannot be converted or the cause cannot be read,
/// that is the answer.
pub proof fn law_where_a_cause_comes_from(realm: RealmView, args: Seq<Value>, kind: ErrorKind)
    requires
        realm.fits(),
        realm.knows_all(args),
        !realm.constructing,
        realm.objects.len() < usize::MAX,
        realm.texts.len() < usize::MAX,
    ensures
        realm.error_prototypes[kind.position()] is None ==> built(realm, None, args, kind) == (
            Err::<Value, ErrorView>(
                ErrorView::Unsupported(
                    kind.label()
                        + "() needs the error prototypes, which this realm was built without"@,
                ),
            ),
            realm,
        ),
        realm.error_prototypes[kind.position()] is Some ==> ({
            let (answer, later) = built(realm, None, args, kind);
            let this = Value::Object(realm.objects.len() as usize);
            let made = realm.with_object(
                RealmView::empty_object(realm.error_prototypes[kind.position()]),
            );
            let spoken = argument(args, 0) == Value::Undefined || text_of(
                made,
                argument(args, 0),
            ) is Ok;
            let found = realm.looked_up(argument(args, 1), "cause"@);
            &&& !spoken ==> answer == Err::<Value, ErrorView>(
                text_of(made, argument(args, 0))->Err_0,
            )
            &&& spoken && found is Err ==> answer == Err::<Value, ErrorView>(found->Err_0)
            &&& spoken && found is Ok ==> answer == Ok::<Value, ErrorView>(this)
            &&& spoken && found == Ok::<Option<Value>, ErrorView>(None) ==> later.own(
                this,
                "cause"@,
            ) is None
            &&& spoken && (found matches Ok(Some(_))) ==> later.own(this, "cause"@) == Some(
                (found->Ok_0->0, Attributes::data(true, false, true)),
            )
        }),
{
    reveal_strlit("message");
    reveal_strlit("cause");
    assert("message"@.len() == 7 && "cause"@.len() == 5);
    let at = realm.objects.len() as int;
    let made = realm.with_object(RealmView::empty_object(realm.error_prototypes[kind.position()]));
    let hidden = Attributes::data(true, false, true);
    let text = text_of(made, argument(args, 0));
    if argument(args, 0) != Value::Undefined && text is Ok {
        let value = Value::Text(made.texts.len() as usize);
        lemma_only_that_key(made.with_text(text->Ok_0), at, "message"@, value, hidden);
    }
    let spoken = with_message(made, at, argument(args, 0)).1;
    if let Value::Object(options) = argument(args, 1) {
        assert(realm.knows(argument(args, 1)));
        lemma_reading_ignores_a_new_object(realm, spoken, options as int, "cause"@);
    }
    if let Ok(Some(cause)) = spoken.looked_up(argument(args, 1), "cause"@) {
        lemma_only_that_key(spoken, at, "cause"@, cause, hidden);
    }
}

} // verus!
