//! `console`, which is the first thing every JavaScript program a person writes actually uses.
//!
//! # What a line looks like
//!
//! Every argument is inspected and the results are joined with a single space, then one newline goes
//! on the end. Inspecting rather than converting is the whole difference between `console.log` and
//! writing text.
//!
//! # What is not here yet
//!
//! Format specifiers, `console.table`, `console.group`, `console.time` and the counters.

use vstd::prelude::*;

use crate::builtins::realm::{
    entry_views, lemma_growing_is_transitive, lemma_growing_keeps_values, Realm, RealmView,
};
use crate::builtins::value::{Attributes, Native, Stream, Value};

verus! {

/// A realm with `console` in it: five functions on one object, two of which write to the other
/// stream.
pub open spec fn installed(realm: RealmView) -> RealmView {
    let count = realm.objects.len();
    realm.with_object(
        RealmView::native_object("log"@, Native::Console(Stream::Out), false),
    ).with_object(
        RealmView::native_object("error"@, Native::Console(Stream::Error), false),
    ).with_object(
        RealmView::native_object("warn"@, Native::Console(Stream::Error), false),
    ).with_object(
        RealmView::native_object("info"@, Native::Console(Stream::Out), false),
    ).with_object(
        RealmView::native_object("debug"@, Native::Console(Stream::Out), false),
    ).with_object(RealmView::empty_object(Some(0usize))).with_entries(
        (count + 5) as int,
        seq![
            ("log"@, Value::Object(count as usize)),
            ("error"@, Value::Object((count + 1) as usize)),
            ("warn"@, Value::Object((count + 2) as usize)),
            ("info"@, Value::Object((count + 3) as usize)),
            ("debug"@, Value::Object((count + 4) as usize)),
        ],
        Attributes::data(true, true, true),
    ).with_global("console"@, Value::Object((count + 5) as usize))
}

/// Put `console` in the global scope.
///
/// Standard error and not standard output for `error` and `warn`, because a program whose output is
/// being piped somewhere expects its diagnostics to stay out of the pipe. `info` and `debug` are
/// `log` under other names.
pub fn install(realm: &mut Realm)
    requires
        old(realm)@.fits(),
    ensures
        final(realm)@.fits(),
        old(realm)@.grows_into(final(realm)@),
        final(realm)@ == installed(old(realm)@),
{
    let ghost before = realm@;
    let log = realm.native_function("log", Native::Console(Stream::Out));
    let ghost first = realm@;
    let error = realm.native_function("error", Native::Console(Stream::Error));
    let ghost second = realm@;
    let warn = realm.native_function("warn", Native::Console(Stream::Error));
    let ghost third = realm@;
    let info = realm.native_function("info", Native::Console(Stream::Out));
    let ghost fourth = realm@;
    let debug = realm.native_function("debug", Native::Console(Stream::Out));
    let ghost fifth = realm@;
    proof {
        lemma_growing_is_transitive(fourth, fifth, fifth);
        lemma_growing_is_transitive(third, fourth, fifth);
        lemma_growing_is_transitive(second, third, fifth);
        lemma_growing_is_transitive(first, second, fifth);
        lemma_growing_is_transitive(before, first, fifth);
        lemma_growing_keeps_values(first, fifth, log);
        lemma_growing_keeps_values(second, fifth, error);
        lemma_growing_keeps_values(third, fifth, warn);
        lemma_growing_keeps_values(fourth, fifth, info);
    }
    let entries = [
        ("log", log),
        ("error", error),
        ("warn", warn),
        ("info", info),
        ("debug", debug),
    ];
    assert(entry_views(entries@) =~= seq![
        ("log"@, log),
        ("error"@, error),
        ("warn"@, warn),
        ("info"@, info),
        ("debug"@, debug),
    ]);
    let console = realm.host_object(&entries);
    let ghost sixth = realm@;
    proof {
        lemma_growing_is_transitive(before, fifth, sixth);
    }
    realm.define_global("console", console);
    proof {
        lemma_growing_is_transitive(before, sixth, realm@);
    }
}

/// The first `count` arguments as the console shows them, with a space between each two.
pub open spec fn shown_args(realm: RealmView, args: Seq<Value>, count: int) -> Seq<char>
    decreases count,
{
    if count <= 0 {
        Seq::empty()
    } else if count == 1 {
        realm.display_text(args[0])
    } else {
        shown_args(realm, args, count - 1) + " "@ + realm.display_text(args[count - 1])
    }
}

/// The line a call prints.
pub open spec fn line_of(realm: RealmView, args: Seq<Value>) -> Seq<char> {
    shown_args(realm, args, args.len() as int) + "\n"@
}

/// Inspect every argument, join them with a space and write the line.
///
/// The line is built and written once rather than written a piece at a time, so that two threads
/// printing into one sink interleave between lines rather than inside them.
pub fn write_line(realm: &mut Realm, stream: Stream, args: &[Value])
    requires
        old(realm)@.fits(),
        old(realm)@.knows_all(args@),
    ensures
        final(realm)@.fits(),
        old(realm)@.grows_into(final(realm)@),
        final(realm)@ == (RealmView {
            output: old(realm)@.output.push((stream, line_of(old(realm)@, args@))),
            ..old(realm)@
        }),
{
    let mut line = String::new();
    let mut at: usize = 0;
    assert(line@ =~= shown_args(realm@, args@, 0));
    while at < args.len()
        invariant
            at <= args@.len(),
            realm@.knows_all(args@),
            line@ == shown_args(realm@, args@, at as int),
        decreases args@.len() - at,
    {
        let ghost start = line@;
        if at > 0 {
            line.append(" ");
        }
        let what = realm.display(args[at]);
        line.append(what.as_str());
        at = at + 1;
        assert(line@ =~= shown_args(realm@, args@, at as int));
    }
    line.append("\n");
    realm.write_output(stream, line.as_str());
}

/// A line is the arguments as the console shows them, one space between each two, and a newline.
pub proof fn law_a_line_is_the_arguments_in_a_row(realm: RealmView, args: Seq<Value>, last: Value)
    ensures
        line_of(realm, Seq::empty()) =~= seq!['\n'],
        args.len() == 0 ==> line_of(realm, args.push(last)) =~= realm.display_text(last).push('\n'),
        args.len() > 0 ==> line_of(realm, args.push(last)) =~= line_of(realm, args).drop_last().push(
            ' ',
        ) + realm.display_text(last).push('\n'),
{
    reveal_strlit(" ");
    reveal_strlit("\n");
    assert(" "@ =~= seq![' ']);
    assert("\n"@ =~= seq!['\n']);
    let more = args.push(last);
    lemma_earlier_arguments_stay(realm, args, last, args.len() as int);
    assert(shown_args(realm, Seq::<Value>::empty(), 0) =~= Seq::<char>::empty());
    assert(line_of(realm, args).drop_last() =~= shown_args(realm, args, args.len() as int));
}

proof fn lemma_earlier_arguments_stay(
    realm: RealmView,
    args: Seq<Value>,
    last: Value,
    count: int,
)
    requires
        0 <= count <= args.len(),
    ensures
        shown_args(realm, args.push(last), count) == shown_args(realm, args, count),
    decreases count,
{
    if count > 1 {
        lemma_earlier_arguments_stay(realm, args, last, count - 1);
    }
}

} // verus!
