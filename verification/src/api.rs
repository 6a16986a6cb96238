//! The embedding API.

use vstd::prelude::*;

use crate::builtins::furniture::law_which_names_are_bound;
use crate::builtins::realm::{
    lemma_growing_is_transitive, lemma_growing_keeps_values, Realm, RealmView,
};
use crate::builtins::value::{ErrorView, RuntimeError, Value};
use crate::builtins::{console, globals, json, performance, string};

verus! {

/// Anything that went wrong that a caller can act on.
#[derive(Clone, Debug)]
pub enum Error {
    /// The source did not parse or could not be lowered.
    Syntax(String),
    /// A JavaScript exception reached the top of the stack.
    Uncaught(String),
    /// The feature exists in the design but is not implemented in this build yet.
    NotImplemented(String),
    /// The runtime cannot continue, and no JavaScript program could have caught it either.
    ///
    /// Separate from [`Error::Uncaught`] because an uncaught exception is a thing the program did and
    /// this is a thing that happened to it.
    Fatal(String),
}

/// An error with its text as a sequence of characters.
pub enum ErrorText {
    /// The source did not parse.
    Syntax(Seq<char>),
    /// A JavaScript exception reached the top of the stack.
    Uncaught(Seq<char>),
    /// Not implemented in this build yet.
    NotImplemented(Seq<char>),
    /// The runtime cannot continue.
    Fatal(Seq<char>),
}

impl View for Error {
    type V = ErrorText;

    open spec fn view(&self) -> ErrorText {
        match self {
            Error::Syntax(text) => ErrorText::Syntax(text@),
            Error::Uncaught(text) => ErrorText::Uncaught(text@),
            Error::NotImplemented(text) => ErrorText::NotImplemented(text@),
            Error::Fatal(text) => ErrorText::Fatal(text@),
        }
    }
}

impl ErrorText {
    /// What the error says.
    pub open spec fn text(self) -> Seq<char> {
        match self {
            ErrorText::Syntax(text) => "syntax error: "@ + text,
            ErrorText::Uncaught(text) => "uncaught exception: "@ + text,
            ErrorText::NotImplemented(text) => "not implemented yet: "@ + text
                + ". See https://github.com/tamnd/katsu/milestones"@,
            ErrorText::Fatal(text) => "fatal: "@ + text,
        }
    }
}

/// What a runtime error is to a caller: a gap of this build, something that happened to the program,
/// or something the program could have caught and did not.
pub open spec fn reported(error: ErrorView) -> ErrorText {
    match error {
        ErrorView::NotImplemented(_) | ErrorView::Unsupported(_) => ErrorText::NotImplemented(
            error.text(),
        ),
        ErrorView::OutOfMemory | ErrorView::Interrupted => ErrorText::Fatal(error.text()),
        _ => ErrorText::Uncaught(error.text()),
    }
}

impl Error {
    /// What the error says, for a person to read.
    pub fn to_string(&self) -> (out: String)
        ensures
            out@ == self@.text(),
    {
        let mut out = String::new();
        match self {
            Error::Syntax(text) => {
                out.append("syntax error: ");
                out.append(text.as_str());
            },
            Error::Uncaught(text) => {
                out.append("uncaught exception: ");
                out.append(text.as_str());
            },
            Error::NotImplemented(text) => {
                out.append("not implemented yet: ");
                out.append(text.as_str());
                out.append(". See https://github.com/tamnd/katsu/milestones");
            },
            Error::Fatal(text) => {
                out.append("fatal: ");
                out.append(text.as_str());
            },
        }
        assert(out@ =~= self@.text());
        out
    }

    /// What a runtime error is to a caller.
    pub fn from_runtime(error: &RuntimeError) -> (reported_error: Error)
        ensures
            reported_error@ == reported(error@),
    {
        let text = error.to_string();
        match error {
            RuntimeError::NotImplemented(_) | RuntimeError::Unsupported(_) => {
                Error::NotImplemented(text)
            },
            RuntimeError::OutOfMemory | RuntimeError::Interrupted => Error::Fatal(text),
            // Everything a `try` in the program could have caught and nothing did.
            _ => Error::Uncaught(text),
        }
    }

    /// What a program that did not compile is to a caller.
    ///
    /// A file that is not valid JavaScript is the program's mistake. A file that is valid JavaScript
    /// using something this build has not got is this build's.
    pub fn from_compile(text: &str, is_not_implemented: bool) -> (reported_error: Error)
        ensures
            reported_error@ == if is_not_implemented {
                ErrorText::NotImplemented(text@)
            } else {
                ErrorText::Syntax(text@)
            },
    {
        if is_not_implemented {
            Error::NotImplemented(text.to_owned())
        } else {
            Error::Syntax(text.to_owned())
        }
    }
}

/// One embedded runtime: the realm its programs run in, with the globals a program is entitled to
/// assume are there.
#[derive(Debug)]
pub struct Runtime {
    realm: Realm,
}

/// A realm with the globals a program is entitled to assume are there.
pub open spec fn furnished(origin: Value, text: Seq<char>) -> RealmView {
    json::installed(
        string::installed(
            performance::installed(
                console::installed(globals::installed(RealmView::fresh().with_text(text))),
                origin,
            ),
        ),
    )
}

impl Runtime {
    /// The realm of the runtime.
    pub closed spec fn world(&self) -> RealmView {
        self.realm@
    }

    /// Create a runtime, given the date its clock starts at as the bit pattern of a double and as the
    /// text it converts to.
    pub fn new(origin_bits: u64, origin_text: &str) -> (runtime: Runtime)
        ensures
            runtime.world().fits(),
            runtime.world() == furnished(
                Value::Number { bits: origin_bits, text: 0 },
                origin_text@,
            ),
    {
        let mut realm = Realm::new();
        let origin = realm.new_number(origin_bits, origin_text);
        let ghost first = realm@;
        globals::install(&mut realm);
        let ghost second = realm@;
        console::install(&mut realm);
        let ghost third = realm@;
        proof {
            lemma_growing_is_transitive(first, second, third);
            lemma_growing_keeps_values(first, third, origin);
        }
        performance::install(&mut realm, origin);
        string::install(&mut realm);
        json::install(&mut realm);
        Runtime { realm }
    }

    /// The realm this runtime owns.
    pub fn realm(&self) -> (realm: &Realm)
        ensures
            realm@ == self.world(),
    {
        &self.realm
    }

    /// The realm this runtime owns, to run a program in.
    pub fn into_realm(self) -> (realm: Realm)
        ensures
            realm@ == self.world(),
    {
        self.realm
    }

    /// Render a value as text, the way `console.log` prints it at the top level.
    ///
    /// A value is only meaningful alongside the runtime that produced it.
    #[must_use]
    pub fn display(&self, value: Value) -> (text: String)
        requires
            self.world().knows(value),
        ensures
            text@ == self.world().display_text(value),
    {
        self.realm.display(value)
    }
}

/// Whether a build has the compilation tiers, given whether the `jit` feature is in it.
#[must_use]
pub fn jit_enabled(jit: bool) -> (enabled: bool)
    ensures
        enabled == jit,
{
    jit
}

/// What a caller is told: what this build has not got is a gap, what happened to the program is fatal,
/// and what the program could have caught is uncaught, each with what the error says.
pub proof fn law_what_a_caller_is_told(message: Seq<char>)
    ensures
        reported(ErrorView::NotImplemented(message)) == ErrorText::NotImplemented(message),
        reported(ErrorView::Unsupported(message)) == ErrorText::NotImplemented(message),
        reported(ErrorView::OutOfMemory) == ErrorText::Fatal("out of memory"@),
        reported(ErrorView::Interrupted) == ErrorText::Fatal("interrupted"@),
        reported(ErrorView::Type(message)) == ErrorText::Uncaught("TypeError: "@ + message),
        reported(ErrorView::Range(message)) == ErrorText::Uncaught("RangeError: "@ + message),
        reported(ErrorView::Reference(message)) == ErrorText::Uncaught("ReferenceError: "@ + message),
        reported(ErrorView::Thrown(message)) == ErrorText::Uncaught(message),
        ErrorText::Syntax(message).text() == "syntax error: "@ + message,
        ErrorText::Uncaught(message).text() == "uncaught exception: "@ + message,
        ErrorText::NotImplemented(message).text() == "not implemented yet: "@ + message
            + ". See https://github.com/tamnd/katsu/milestones"@,
        ErrorText::Fatal(message).text() == "fatal: "@ + message,
{
}

/// A runtime starts with seven names bound: `undefined`, `NaN`, `Infinity`, `console`, `performance`,
/// `String` and `JSON`.
pub proof fn law_what_a_runtime_starts_with(origin: Value, text: Seq<char>)
    ensures
        ({
            let bound = furnished(origin, text).globals;
            &&& bound.len() == 7
            &&& bound[0].0 == "undefined"@
            &&& bound[1].0 == "NaN"@
            &&& bound[2].0 == "Infinity"@
            &&& bound[3].0 == "console"@
            &&& bound[4].0 == "performance"@
            &&& bound[5].0 == "String"@
            &&& bound[6].0 == "JSON"@
        }),
{
    let fresh = RealmView::fresh().with_text(text);
    law_which_names_are_bound(fresh, origin);
    let named = globals::installed(fresh);
    law_which_names_are_bound(named, origin);
    let printing = console::installed(named);
    law_which_names_are_bound(printing, origin);
    let timing = performance::installed(printing, origin);
    law_which_names_are_bound(timing, origin);
    law_which_names_are_bound(string::installed(timing), origin);
}

} // verus!
