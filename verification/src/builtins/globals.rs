//! The three value properties of the global object.
//!
//! `undefined`, `NaN` and `Infinity` are not keywords. They are ordinary bindings on the global
//! object.

use vstd::prelude::*;

use crate::builtins::realm::{lemma_growing_is_transitive, Realm, RealmView};
use crate::builtins::value::Value;

verus! {

/// The bit pattern of the number that is not a number.
pub const NAN_BITS: u64 = 0x7FF8_0000_0000_0000;

/// The bit pattern of positive infinity.
pub const INFINITY_BITS: u64 = 0x7FF0_0000_0000_0000;

/// A realm with the three value properties bound.
pub open spec fn installed(realm: RealmView) -> RealmView {
    let nan = Value::Number { bits: NAN_BITS, text: realm.texts.len() as usize };
    let infinity = Value::Number { bits: INFINITY_BITS, text: (realm.texts.len() + 1) as usize };
    realm.with_global("undefined"@, Value::Undefined).with_text("NaN"@).with_global(
        "NaN"@,
        nan,
    ).with_text("Infinity"@).with_global("Infinity"@, infinity)
}

/// Bind the value properties of the global object.
pub fn install(realm: &mut Realm)
    requires
        old(realm)@.fits(),
    ensures
        final(realm)@.fits(),
        old(realm)@.grows_into(final(realm)@),
        final(realm)@ == installed(old(realm)@),
{
    let ghost before = realm@;
    realm.define_global("undefined", Value::Undefined);
    let ghost first = realm@;
    let nan = realm.new_number(NAN_BITS, "NaN");
    let ghost second = realm@;
    realm.define_global("NaN", nan);
    let ghost third = realm@;
    let infinity = realm.new_number(INFINITY_BITS, "Infinity");
    let ghost fourth = realm@;
    realm.define_global("Infinity", infinity);
    proof {
        lemma_growing_is_transitive(before, first, second);
        lemma_growing_is_transitive(before, second, third);
        lemma_growing_is_transitive(before, third, fourth);
        lemma_growing_is_transitive(before, fourth, realm@);
    }
}

} // verus!
