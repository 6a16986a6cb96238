//! The builtins: `Object`, `Function`, `Error`, `String`, `JSON`, `console` and `performance`.
//!
//! `realm` is the object model they read and change, `convert` turns values into text, `dispatch`
//! calls a function by which one it is, and every other module is one of the builtins.

pub mod console;
pub mod convert;
pub mod dispatch;
pub mod error;
pub mod function;
pub mod furniture;
pub mod globals;
pub mod json;
pub mod object;
pub mod performance;
pub mod realm;
pub mod string;
pub mod value;

use vstd::prelude::*;

verus! {

/// Whether a build has the internationalization API, given whether the `full-intl` feature is in it.
///
/// Reported honestly rather than stubbed. A locale aware API that silently ignores the locale is worse
/// than one that is absent.
#[must_use]
pub fn intl_available(full_intl: bool) -> (available: bool)
    ensures
        available == full_intl,
{
    full_intl
}

/// The ECMAScript language version this build targets.
#[must_use]
pub fn language_edition() -> (edition: &'static str)
    ensures
        edition@ == "ECMAScript 2026"@,
{
    "ECMAScript 2026"
}

} // verus!
