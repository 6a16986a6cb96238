//! `String`, called as a function.
//!
//! `String(x)` is the explicit spelling of the conversion that `'' + x` does implicitly, and it goes
//! through the same conversion.

use vstd::prelude::*;

use crate::builtins::convert::{text_of, to_text};
use crate::builtins::object::answered;
use crate::builtins::realm::{
    lemma_growing_is_reflexive, lemma_growing_is_transitive, outcome, Realm,
    RealmView,
};
use crate::builtins::value::{ErrorView, Native, RuntimeError, Value};

verus! {

/// A realm with `String` in it.
pub open spec fn installed(realm: RealmView) -> RealmView {
    realm.with_object(RealmView::native_object("String"@, Native::Text, false)).with_global(
        "String"@,
        Value::Object(realm.objects.len() as usize),
    )
}

/// Put `String` in the global scope.
pub fn install(realm: &mut Realm)
    requires
        old(realm)@.fits(),
    ensures
        final(realm)@.fits(),
        old(realm)@.grows_into(final(realm)@),
        final(realm)@ == installed(old(realm)@),
{
    let ghost before = realm@;
    let function = realm.native_function("String", Native::Text);
    let ghost made = realm@;
    realm.define_global("String", function);
    proof {
        lemma_growing_is_transitive(before, made, realm@);
    }
}

/// The text `String` answers with: that of its argument, and the empty text when it has none.
pub open spec fn converted(realm: RealmView, args: Seq<Value>) -> Result<Seq<char>, ErrorView> {
    if args.len() == 0 {
        Ok(Seq::empty())
    } else {
        text_of(realm, args[0])
    }
}

/// `String(value)`.
///
/// `String()` with nothing at all is the empty string and not `"undefined"`, which is the one case
/// where the missing argument is not simply `undefined` padded in.
pub fn string(realm: &mut Realm, args: &[Value]) -> (answer: Result<Value, RuntimeError>)
    requires
        old(realm)@.fits(),
        old(realm)@.knows_all(args@),
    ensures
        final(realm)@.fits(),
        old(realm)@.grows_into(final(realm)@),
        (outcome(answer), final(realm)@) == answered(
            old(realm)@,
            converted(old(realm)@, args@),
        ),
        answer matches Ok(value) ==> final(realm)@.knows(value),
{
    proof {
        lemma_growing_is_reflexive(realm@);
    }
    let text = if args.len() == 0 {
        String::new()
    } else {
        match to_text(realm, args[0]) {
            Ok(text) => text,
            Err(error) => {
                return Err(error);
            },
        }
    };
    assert(args@.len() == 0 ==> text@ =~= Seq::<char>::empty());
    Ok(realm.new_string(text.as_str()))
}

/// `String` of nothing is text with nothing in it, and of anything else is what the first argument
/// converts to.
pub proof fn law_string_converts_its_first_argument(realm: RealmView, args: Seq<Value>)
    ensures
        args.len() == 0 ==> converted(realm, args) == Ok::<Seq<char>, ErrorView>(Seq::empty()),
        args.len() > 0 ==> converted(realm, args) == text_of(realm, args[0]),
{
}

} // verus!
