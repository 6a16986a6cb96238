//! `performance`, which is how a program times itself.
//!
//! # What is here
//!
//! `now()` and `timeOrigin`. The clock itself is read outside: whoever runs a program hands the realm
//! a reading before each call, and `now` answers with the latest one.

use vstd::prelude::*;

use crate::builtins::realm::{
    entry_views, lemma_growing_is_transitive, lemma_growing_keeps_values, Realm, RealmView,
};
use crate::builtins::value::{Attributes, Native, Value};

verus! {

/// A realm with `performance` in it.
pub open spec fn installed(realm: RealmView, origin: Value) -> RealmView {
    let now = Value::Object(realm.objects.len() as usize);
    let performance = (realm.objects.len() + 1) as usize;
    realm.with_object(
        RealmView::native_object("now"@, Native::PerformanceNow, false),
    ).with_object(RealmView::empty_object(Some(0usize))).with_entries(
        performance as int,
        seq![("now"@, now)],
        Attributes::data(true, true, true),
    ).with_own(
        performance as int,
        "timeOrigin"@,
        origin,
        Attributes::data(false, true, false),
    ).with_global("performance"@, Value::Object(performance))
}

/// Put `performance` in the global scope, given the date the clock's zero stands for.
///
/// `timeOrigin` is read only and not configurable, which is what a number that cannot change for the
/// life of the process should be.
pub fn install(realm: &mut Realm, origin: Value)
    requires
        old(realm)@.fits(),
        old(realm)@.knows(origin),
    ensures
        final(realm)@.fits(),
        old(realm)@.grows_into(final(realm)@),
        final(realm)@ == installed(old(realm)@, origin),
{
    let ghost before = realm@;
    let now = realm.native_function("now", Native::PerformanceNow);
    let ghost first = realm@;
    let entries = [("now", now)];
    assert(entry_views(entries@) =~= seq![("now"@, now)]);
    let performance = realm.host_object(&entries);
    let ghost second = realm@;
    proof {
        lemma_growing_is_transitive(before, first, second);
        lemma_growing_keeps_values(before, second, origin);
    }
    realm.define_property(performance, "timeOrigin", origin, Attributes::new(false, true, false));
    let ghost third = realm@;
    proof {
        lemma_growing_is_transitive(before, second, third);
        lemma_growing_keeps_values(second, third, performance);
    }
    realm.define_global("performance", performance);
    proof {
        lemma_growing_is_transitive(before, third, realm@);
    }
}

/// Milliseconds since this process's runtime began: the latest reading of the clock.
///
/// Takes no arguments and ignores any it is given.
pub fn now(realm: &Realm) -> (reading: Value)
    requires
        realm@.fits(),
    ensures
        reading == realm@.clock,
        realm@.knows(reading),
{
    realm.clock()
}

} // verus!
