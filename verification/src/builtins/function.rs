//! `Function`, which is the constructor every function in the realm points back at.
//!
//! `constructor` on `Object.prototype` is inherited by everything in the realm, functions included.
//! `Function.prototype` gets its own `constructor`, it is found first because it sits below
//! `Object.prototype` on a function's chain, and `f.constructor` is `Function`.
//!
//! # What is not here
//!
//! Calling `Function`, which compiles its last argument as a function body, `Function.prototype`
//! being callable, and `call`, `apply`, `bind`, `toString`, `length` and `name`.

use vstd::prelude::*;

use crate::builtins::realm::{
    lemma_growing_is_transitive, lemma_growing_keeps_values, outcome, Realm, RealmView,
};
use crate::builtins::value::{Attributes, ErrorView, Native, RuntimeError, Value};

verus! {

/// A realm with `Function` in it.
pub open spec fn installed(realm: RealmView) -> RealmView {
    let function = Value::Object(realm.objects.len() as usize);
    realm.with_object(RealmView::native_object("Function"@, Native::Function, false)).with_own(
        realm.objects.len() as int,
        "prototype"@,
        Value::Object(1),
        Attributes::data(false, false, false),
    ).with_own(1, "constructor"@, function, Attributes::data(true, false, true)).with_global(
        "Function"@,
        function,
    )
}

/// Put `Function` in the global scope.
///
/// Runs after `Object`, because the `constructor` defined here has to be the one found first.
pub fn install(realm: &mut Realm)
    requires
        old(realm)@.fits(),
    ensures
        final(realm)@.fits(),
        old(realm)@.grows_into(final(realm)@),
        final(realm)@ == installed(old(realm)@),
{
    let ghost before = realm@;
    let prototype = realm.function_prototype();
    let function = realm.native_function("Function", Native::Function);
    let ghost first = realm@;
    // Exactly the shape `Object` has. Nothing can rewrite `prototype`, because the top of every
    // function's chain moving would take every function with it, and `constructor` is an ordinary
    // hidden property that a program is allowed to replace.
    realm.define_property(function, "prototype", prototype, Attributes::none());
    let ghost second = realm@;
    proof {
        lemma_growing_is_transitive(before, first, second);
        lemma_growing_keeps_values(first, second, function);
    }
    realm.define_property(prototype, "constructor", function, Attributes::builtin());
    let ghost third = realm@;
    proof {
        lemma_growing_is_transitive(before, second, third);
        lemma_growing_keeps_values(second, third, function);
    }
    realm.define_global("Function", function);
    proof {
        lemma_growing_is_transitive(before, third, realm@);
    }
}

/// What calling `Function` is refused with.
pub open spec fn refusal() -> ErrorView {
    ErrorView::Unsupported(
        "Function is not supported yet as a call, because building a function out of text is a compiler entry point and needs the same decisions as eval"@,
    )
}

/// `Function(body)`, which builds a function out of text.
///
/// It refuses by name. The argument is source, so this is a compiler entry point rather than a
/// constructor.
pub fn call() -> (answer: Result<Value, RuntimeError>)
    ensures
        outcome(answer) == Err::<Value, ErrorView>(refusal()),
{
    Err(
        RuntimeError::unsupported(
            "Function is not supported yet as a call, because building a function out of text is a compiler entry point and needs the same decisions as eval",
        ),
    )
}

} // verus!
