//! Calling a function written in Rust.

use vstd::prelude::*;

use crate::builtins::realm::{argument, lemma_growing_is_reflexive, outcome, Realm, RealmView};
use crate::builtins::value::{ErrorView, Native, RuntimeError, Value};
use crate::builtins::{console, error, function, json, object, performance, string};

verus! {

/// What a function written in Rust answers, and the realm after it.
pub open spec fn answers(
    realm: RealmView,
    native: Native,
    receiver: Option<Value>,
    args: Seq<Value>,
) -> (Result<Value, ErrorView>, RealmView) {
    match native {
        Native::Object => object::called(realm, args),
        Native::ObjectCreate => object::created(realm, args),
        Native::ObjectGetPrototypeOf => (object::prototype_answer(realm, args), realm),
        Native::ObjectDefineProperty => object::defined(realm, args),
        Native::ObjectDefineProperties => object::defined_all(
            realm,
            argument(args, 0),
            argument(args, 1),
        ),
        Native::ObjectDescribe => object::described(realm, args),
        Native::HasOwnProperty => (object::owns(realm, receiver, args), realm),
        Native::IsPrototypeOf => (object::is_prototype(realm, receiver, args), realm),
        Native::PropertyIsEnumerable => (object::shows(realm, receiver, args), realm),
        Native::ObjectToString => object::answered(realm, object::tagged(realm, receiver)),
        Native::ObjectValueOf => (
            object::subject(realm, receiver, "Object.prototype.valueOf"@),
            realm,
        ),
        Native::Function => (Err(function::refusal()), realm),
        Native::Error(kind) => error::built(realm, receiver, args, kind),
        Native::ErrorToString => object::answered(realm, error::said(realm, receiver)),
        Native::Text => object::answered(realm, string::converted(realm, args)),
        Native::JsonStringify => json::stringified(realm, args),
        Native::JsonParse => (
            Err(
                ErrorView::Unsupported(
                    "JSON.parse is not supported yet, because it needs arrays"@,
                ),
            ),
            realm,
        ),
        Native::Console(stream) => (
            Ok(Value::Undefined),
            RealmView {
                output: realm.output.push((stream, console::line_of(realm, args))),
                ..realm
            },
        ),
        Native::PerformanceNow => (Ok(realm.clock), realm),
    }
}

/// Call a function written in Rust.
///
/// A call made with `new` is handed the object that `new` made as its receiver.
pub fn call_native(
    realm: &mut Realm,
    native: Native,
    receiver: Option<Value>,
    args: &[Value],
) -> (answer: Result<Value, RuntimeError>)
    requires
        old(realm)@.fits(),
        old(realm)@.knows_all(args@),
        receiver matches Some(value) ==> old(realm)@.knows(value),
        old(realm)@.constructing && receiver is Some ==> receiver->0 is Object,
    ensures
        final(realm)@.fits(),
        old(realm)@.grows_into(final(realm)@),
        (outcome(answer), final(realm)@) == answers(old(realm)@, native, receiver, args@),
        answer matches Ok(value) ==> final(realm)@.knows(value),
{
    proof {
        lemma_growing_is_reflexive(realm@);
    }
    match native {
        Native::Object => object::call(realm, args),
        Native::ObjectCreate => object::create(realm, args),
        Native::ObjectGetPrototypeOf => object::get_prototype_of(realm, args),
        Native::ObjectDefineProperty => object::define_property(realm, args),
        Native::ObjectDefineProperties => {
            let target = crate::builtins::realm::arg(args, 0);
            let source = crate::builtins::realm::arg(args, 1);
            object::define_properties(realm, target, source)
        },
        Native::ObjectDescribe => object::describe(realm, args),
        Native::HasOwnProperty => object::has_own_property(realm, receiver, args),
        Native::IsPrototypeOf => object::is_prototype_of(realm, receiver, args),
        Native::PropertyIsEnumerable => object::property_is_enumerable(realm, receiver, args),
        Native::ObjectToString => object::to_string(realm, receiver),
        Native::ObjectValueOf => object::value_of(realm, receiver),
        Native::Function => function::call(),
        Native::Error(kind) => error::build(realm, receiver, args, kind),
        Native::ErrorToString => error::to_string(realm, receiver),
        Native::Text => string::string(realm, args),
        Native::JsonStringify => json::stringify(realm, args),
        Native::JsonParse => json::parse(),
        Native::Console(stream) => {
            console::write_line(realm, stream, args);
            Ok(Value::Undefined)
        },
        Native::PerformanceNow => Ok(performance::now(realm)),
    }
}

/// Which builtin each function written in Rust is, and what it leaves of the realm.
pub proof fn law_which_builtin_a_function_is(
    realm: RealmView,
    receiver: Option<Value>,
    args: Seq<Value>,
    native: Native,
)
    ensures
        native is ObjectGetPrototypeOf || native is HasOwnProperty || native is IsPrototypeOf
            || native is PropertyIsEnumerable || native is ObjectValueOf || native is Function
            || native is JsonParse || native is PerformanceNow ==> answers(
            realm,
            native,
            receiver,
            args,
        ).1 == realm,
        answers(realm, Native::Object, receiver, args) == object::called(realm, args),
        answers(realm, Native::ObjectCreate, receiver, args) == object::created(realm, args),
        answers(realm, Native::ObjectGetPrototypeOf, receiver, args).0 == object::prototype_answer(
            realm,
            args,
        ),
        answers(realm, Native::ObjectDefineProperty, receiver, args) == object::defined(realm, args),
        answers(realm, Native::ObjectDefineProperties, receiver, args) == object::defined_all(
            realm,
            argument(args, 0),
            argument(args, 1),
        ),
        answers(realm, Native::ObjectDescribe, receiver, args) == object::described(realm, args),
        answers(realm, Native::HasOwnProperty, receiver, args).0 == object::owns(
            realm,
            receiver,
            args,
        ),
        answers(realm, Native::IsPrototypeOf, receiver, args).0 == object::is_prototype(
            realm,
            receiver,
            args,
        ),
        answers(realm, Native::PropertyIsEnumerable, receiver, args).0 == object::shows(
            realm,
            receiver,
            args,
        ),
        answers(realm, Native::PerformanceNow, receiver, args).0 == Ok::<Value, ErrorView>(
            realm.clock,
        ),
        answers(realm, Native::JsonStringify, receiver, args) == json::stringified(realm, args),
        answers(realm, Native::JsonParse, receiver, args).0 == Err::<Value, ErrorView>(
            ErrorView::Unsupported("JSON.parse is not supported yet, because it needs arrays"@),
        ),
        forall|kind: crate::builtins::value::ErrorKind| #[trigger]
            answers(realm, Native::Error(kind), receiver, args) == error::built(
                realm,
                receiver,
                args,
                kind,
            ),
        forall|stream: crate::builtins::value::Stream| #[trigger]
            answers(realm, Native::Console(stream), receiver, args) == (
                Ok::<Value, ErrorView>(Value::Undefined),
                RealmView {
                    output: realm.output.push((stream, console::line_of(realm, args))),
                    ..realm
                },
            ),
{
}

} // verus!
