//! The engine for recipes written in Lua: it runs a script and reads the `package` table that the
//! script leaves behind.
//!
//! What a script computes is not a function of its text alone, so nothing is promised of what comes
//! back of Lua. What is stated is what Lua was asked, in which order, in `call_ensures` of the
//! functions that ask it, and what was made of every answer. What a recipe is, given what was read,
//! is stated in [`crate::lua`].
use crate::git::opt_str;
use crate::handle::{
    call_with_table, call_with_text, classify, execute, forget, globals, library, new_state,
    next_pair, next_value, number_text, optional_table_at, optional_text_at, optional_texts_at,
    pairs_in, said, text_at, text_in, texts_in, value_at, values_in, with_libraries, Found,
    HeldPairs, HeldString, HeldTable, HeldValue, HeldWalk, Library,
};
use crate::lua::{
    field, recipe_of, recipe_view, the_requested_version_is_kept, version_of, LuaEntry, LuaNames,
    LuaOption, LuaOptions, LuaPackage, LuaPaths, LuaSource, LuaSourceTable, TextField,
};
use crate::recipe::{Recipe, RecipeView};
use crate::text::opt_view;
use mlua::prelude::LuaError;
use mlua::{Lua, StdLib};
use vstd::prelude::*;
use vstd::string::*;

verus! {

broadcast use vstd::string::group_string_axioms;

/// What messages call the type of a value.
spec fn kind_text(f: Found) -> Seq<char> {
    match f {
        Found::Nil => "nil"@,
        Found::Boolean(_) => "boolean"@,
        Found::LightUserData => "lightuserdata"@,
        Found::Integer(_) => "integer"@,
        Found::Number(_) => "number"@,
        Found::Text(_) => "string"@,
        Found::List(_) => "table"@,
        Found::Function(_) => "function"@,
        Found::Thread => "thread"@,
        Found::UserData => "userdata"@,
        Found::Error => "error"@,
        Found::Other => "other"@,
    }
}

fn kind_of(f: &Found) -> (r: String)
    ensures
        r@ == kind_text(*f),
{
    let text = match f {
        Found::Nil => "nil",
        Found::Boolean(_) => "boolean",
        Found::LightUserData => "lightuserdata",
        Found::Integer(_) => "integer",
        Found::Number(_) => "number",
        Found::Text(_) => "string",
        Found::List(_) => "table",
        Found::Function(_) => "function",
        Found::Thread => "thread",
        Found::UserData => "userdata",
        Found::Error => "error",
        Found::Other => "other",
    };
    text.to_owned()
}

// ---------------------------------------------------------------------------
// Single questions
//
// In the specifications `a` is the state before a question and `b` the state behind it.
// ---------------------------------------------------------------------------

/// Whether `m` is what was said of the error `e`.
spec fn said_of(e: LuaError, m: String) -> bool {
    call_ensures(said, (e,), m)
}

/// Whether `s` is `r`, with what was said of an error in its place.
spec fn told_as<T>(r: Result<T, LuaError>, s: Result<T, String>) -> bool {
    match r {
        Ok(x) => s == Ok::<T, String>(x),
        Err(e) => s matches Err(m) && said_of(e, m),
    }
}

fn told<T>(r: Result<T, LuaError>) -> (s: Result<T, String>)
    ensures
        told_as(r, s),
{
    match r {
        Ok(x) => Ok(x),
        Err(e) => Err(said(e)),
    }
}

/// Whether `r` is what Lua answered when it was asked for a text or nothing at `key`.
spec fn field_read(a: Lua, t: &HeldTable, key: &str, r: TextField, b: Lua) -> bool {
    exists|answer: Result<Option<String>, LuaError>|
        #[trigger] call_ensures(optional_text_at, (a, t, key), (answer, b)) && told_as(answer, r)
}

/// Whether `r` was read at `key` if it was `wanted`, and is nothing, with nothing asked, if not.
spec fn field_if(wanted: bool, a: Lua, t: &HeldTable, key: &str, r: TextField, b: Lua) -> bool {
    if wanted {
        field_read(a, t, key, r, b)
    } else {
        r == Ok::<Option<String>, String>(None) && b == a
    }
}

fn field_at(wanted: bool, now: Lua, t: &HeldTable, key: &str) -> (r: (TextField, Lua))
    ensures
        field_if(wanted, now, t, key, r.0, r.1),
{
    if !wanted {
        return (Ok(None), now);
    }
    let ghost a = now;
    let (answer, now) = optional_text_at(now, t, key);
    let ghost given = answer;
    assert(call_ensures(optional_text_at, (a, t, key), (given, now)));
    (told(answer), now)
}

/// Whether `r` is what Lua answered when it was asked for a text at `key`.
spec fn text_read(a: Lua, t: &HeldTable, key: &str, r: Result<String, String>, b: Lua) -> bool {
    exists|answer: Result<String, LuaError>|
        #[trigger] call_ensures(text_at, (a, t, key), (answer, b)) && told_as(answer, r)
}

fn name_at(now: Lua, t: &HeldTable, key: &str) -> (r: (Result<String, String>, Lua))
    ensures
        text_read(now, t, key, r.0, r.1),
{
    let ghost a = now;
    let (answer, now) = text_at(now, t, key);
    let ghost given = answer;
    assert(call_ensures(text_at, (a, t, key), (given, now)));
    (told(answer), now)
}

/// Whether `r` is what Lua answered when it was asked for a list of texts or nothing at `key`, if
/// it was `wanted`.
spec fn texts_if(
    wanted: bool,
    a: Lua,
    t: &HeldTable,
    key: &str,
    r: Result<Option<Vec<String>>, String>,
    b: Lua,
) -> bool {
    if wanted {
        exists|answer: Result<Option<Vec<String>>, LuaError>| #[trigger]
            call_ensures(optional_texts_at, (a, t, key), (answer, b)) && told_as(answer, r)
    } else {
        r == Ok::<Option<Vec<String>>, String>(None) && b == a
    }
}

fn list_at(wanted: bool, now: Lua, t: &HeldTable, key: &str) -> (r: (
    Result<Option<Vec<String>>, String>,
    Lua,
))
    ensures
        texts_if(wanted, now, t, key, r.0, r.1),
{
    if !wanted {
        return (Ok(None), now);
    }
    let ghost a = now;
    let (answer, now) = optional_texts_at(now, t, key);
    let ghost given = answer;
    assert(call_ensures(optional_texts_at, (a, t, key), (given, now)));
    (told(answer), now)
}

/// Whether `r` is the text of a string, or what was said of one that is no text.
spec fn string_read(s: HeldString, r: Result<String, String>) -> bool {
    exists|answer: Result<String, LuaError>|
        #[trigger] call_ensures(text_in, (&s,), answer) && told_as(answer, r)
}

fn string_text(s: &HeldString) -> (r: Result<String, String>)
    ensures
        string_read(*s, r),
{
    let answer = text_in(s);
    let ghost given = answer;
    assert(call_ensures(text_in, (s,), given));
    told(answer)
}

/// Whether `answer` is what Lua answered when it was asked for the value at `key`, told apart by
/// its type.
spec fn value_read(
    a: Lua,
    t: &HeldTable,
    key: &str,
    answer: Result<Found, LuaError>,
    b: Lua,
) -> bool {
    exists|given: Result<HeldValue, LuaError>|
        #[trigger] call_ensures(value_at, (a, t, key), (given, b)) && match given {
            Ok(v) => answer matches Ok(f) && call_ensures(classify, (v,), f),
            Err(e) => answer == Err::<Found, LuaError>(e),
        }
}

fn found_at(now: Lua, t: &HeldTable, key: &str) -> (r: (Result<Found, LuaError>, Lua))
    ensures
        value_read(now, t, key, r.0, r.1),
{
    let ghost a = now;
    let (given, now) = value_at(now, t, key);
    let ghost answer = given;
    assert(call_ensures(value_at, (a, t, key), (answer, now)));
    match given {
        Ok(v) => (Ok(classify(v)), now),
        Err(e) => (Err(e), now),
    }
}

// ---------------------------------------------------------------------------
// The source
// ---------------------------------------------------------------------------

/// Whether `r` holds what Lua answered for each part of a source, in the states `s`. Nothing is
/// asked behind the first part that cannot be read.
spec fn source_steps(s: Seq<Lua>, t: &HeldTable, r: LuaSourceTable) -> bool {
    let upto2 = r.git is Ok && r.tag is Ok;
    let upto4 = upto2 && r.branch is Ok && r.commit is Ok;
    &&& s.len() == 8
    &&& field_if(true, s[0], t, "git", r.git, s[1])
    &&& field_if(r.git is Ok, s[1], t, "tag", r.tag, s[2])
    &&& field_if(upto2, s[2], t, "branch", r.branch, s[3])
    &&& field_if(upto2 && r.branch is Ok, s[3], t, "commit", r.commit, s[4])
    &&& field_if(upto4, s[4], t, "url", r.url, s[5])
    &&& field_if(upto4 && r.url is Ok, s[5], t, "hash", r.hash, s[6])
    &&& field_if(upto4 && r.url is Ok && r.hash is Ok, s[6], t, "path", r.path, s[7])
}

/// Whether `r` holds what Lua answered for each part of a source.
spec fn source_table_read(a: Lua, t: &HeldTable, r: LuaSourceTable, b: Lua) -> bool {
    exists|s: Seq<Lua>| #[trigger] source_steps(s, t, r) && s[0] == a && s[7] == b
}

fn source_table(now: Lua, t: &HeldTable) -> (r: (LuaSourceTable, Lua))
    ensures
        source_table_read(now, t, r.0, r.1),
{
    let ghost s0 = now;
    let (git, now) = field_at(true, now, t, "git");
    let mut ok = git.is_ok();
    let ghost s1 = now;
    let (tag, now) = field_at(ok, now, t, "tag");
    ok = ok && tag.is_ok();
    let ghost s2 = now;
    let (branch, now) = field_at(ok, now, t, "branch");
    ok = ok && branch.is_ok();
    let ghost s3 = now;
    let (commit, now) = field_at(ok, now, t, "commit");
    ok = ok && commit.is_ok();
    let ghost s4 = now;
    let (url, now) = field_at(ok, now, t, "url");
    ok = ok && url.is_ok();
    let ghost s5 = now;
    let (hash, now) = field_at(ok, now, t, "hash");
    ok = ok && hash.is_ok();
    let ghost s6 = now;
    let (path, now) = field_at(ok, now, t, "path");
    let r = LuaSourceTable { git, tag, branch, commit, url, hash, path };
    assert(source_steps(seq![s0, s1, s2, s3, s4, s5, s6, now], t, r));
    (r, now)
}

/// Whether `r` is the source in the table that a function gave, or what was said of its failure.
spec fn source_given(a: Lua, given: Result<HeldTable, LuaError>, r: LuaSource, b: Lua) -> bool {
    match given {
        Ok(t) => r matches LuaSource::Table(s) && source_table_read(a, &t, s, b),
        Err(e) => r matches LuaSource::Failed(m) && said_of(e, m) && b == a,
    }
}

/// Whether `r` is the source for the value under `source`; a function there was called with the
/// version.
spec fn source_for(a: Lua, found: Found, version: &str, r: LuaSource, b: Lua) -> bool {
    match found {
        Found::Nil => r is Missing && b == a,
        Found::List(t) => source_given(a, Ok(t), r, b),
        Found::Function(f) => exists|given: Result<HeldTable, LuaError>, called: Lua|
            #[trigger] call_ensures(call_with_text, (a, &f, version), (given, called))
                && source_given(called, given, r, b),
        _ => r matches LuaSource::Other(kind) && kind@ == kind_text(found) && b == a,
    }
}

fn source_from(now: Lua, given: Result<HeldTable, LuaError>) -> (r: (LuaSource, Lua))
    ensures
        source_given(now, given, r.0, r.1),
{
    match given {
        Ok(t) => {
            let (s, now) = source_table(now, &t);
            (LuaSource::Table(s), now)
        },
        Err(e) => (LuaSource::Failed(said(e)), now),
    }
}

/// What stands under `source`, by the value that was found there; a function is called with the
/// version.
fn source_in(now: Lua, found: Found, version: &str) -> (r: (LuaSource, Lua))
    ensures
        source_for(now, found, version, r.0, r.1),
{
    match found {
        Found::Nil => (LuaSource::Missing, now),
        Found::List(t) => source_from(now, Ok(t)),
        Found::Function(f) => {
            let ghost a = now;
            let (given, now) = call_with_text(now, &f, version);
            let ghost answer = given;
            assert(call_ensures(call_with_text, (a, &f, version), (answer, now)));
            source_from(now, given)
        },
        other => (LuaSource::Other(kind_of(&other)), now),
    }
}

/// Whether `r` is the source of a table, for a version.
spec fn source_read(a: Lua, t: &HeldTable, version: &str, r: LuaSource, b: Lua) -> bool {
    exists|answer: Result<Found, LuaError>, between: Lua|
        #[trigger] value_read(a, t, "source", answer, between) && match answer {
            Ok(f) => source_for(between, f, version, r, b),
            Err(e) => r matches LuaSource::Failed(m) && said_of(e, m) && b == between,
        }
}

fn read_source(now: Lua, t: &HeldTable, version: &str) -> (r: (LuaSource, Lua))
    ensures
        source_read(now, t, version, r.0, r.1),
{
    let ghost a = now;
    let (answer, now) = found_at(now, t, "source");
    let ghost given = answer;
    assert(value_read(a, t, "source", given, now));
    match answer {
        Ok(f) => source_in(now, f, version),
        Err(e) => (LuaSource::Failed(said(e)), now),
    }
}

// ---------------------------------------------------------------------------
// Lists of names
// ---------------------------------------------------------------------------

/// Whether `r` is the entry for a value in a list of names.
spec fn entry_for(a: Lua, found: Found, r: LuaEntry, b: Lua) -> bool {
    match found {
        Found::Text(s) => b == a && exists|text: Result<String, String>|
            #[trigger] string_read(s, text) && r == match text {
                Ok(x) => LuaEntry::Text(x),
                Err(m) => LuaEntry::Failed(m),
            },
        Found::List(t) => r matches LuaEntry::Named(n) && text_read(a, &t, "name", n, b),
        _ => r matches LuaEntry::Other(kind) && kind@ == kind_text(found) && b == a,
    }
}

/// One entry of a list of names, by the value that was found there.
fn entry_in(now: Lua, found: Found) -> (r: (LuaEntry, Lua))
    ensures
        entry_for(now, found, r.0, r.1),
{
    match found {
        Found::Text(s) => {
            let text = string_text(&s);
            assert(string_read(s, text));
            match text {
                Ok(x) => (LuaEntry::Text(x), now),
                Err(m) => (LuaEntry::Failed(m), now),
            }
        },
        Found::List(t) => {
            let (name, now) = name_at(now, &t, "name");
            (LuaEntry::Named(name), now)
        },
        other => (LuaEntry::Other(kind_of(&other)), now),
    }
}

/// Whether `r` is the entry for a value that Lua gave, or what was said of one that it did not
/// give.
spec fn entry_read(a: Lua, given: Result<HeldValue, LuaError>, r: LuaEntry, b: Lua) -> bool {
    match given {
        Ok(v) => exists|f: Found|
            #[trigger] call_ensures(classify, (v,), f) && entry_for(a, f, r, b),
        Err(e) => r matches LuaEntry::Failed(m) && said_of(e, m) && b == a,
    }
}

fn entry_of(now: Lua, given: Result<HeldValue, LuaError>) -> (r: (LuaEntry, Lua))
    ensures
        entry_read(now, given, r.0, r.1),
{
    match given {
        Ok(v) => {
            let f = classify(v);
            let ghost found = f;
            assert(call_ensures(classify, (v,), found));
            entry_in(now, f)
        },
        Err(e) => (LuaEntry::Failed(said(e)), now),
    }
}

/// Whether an entry holds a name.
spec fn names_something(e: LuaEntry) -> bool {
    e is Text || (e matches LuaEntry::Named(n) && n is Ok)
}

fn has_name(e: &LuaEntry) -> (r: bool)
    ensures
        r == names_something(*e),
{
    match e {
        LuaEntry::Text(_) => true,
        LuaEntry::Named(n) => n.is_ok(),
        _ => false,
    }
}

/// One step of a walk over a list: the walk and the state before it, the value that it came to, the
/// state then, its entry, and the walk and the state behind it.
struct EntryStep<'a> {
    walk: HeldWalk<'a>,
    state: Lua,
    given: Result<HeldValue, LuaError>,
    reached: Lua,
    entry: LuaEntry,
    rest: HeldWalk<'a>,
    behind: Lua,
}

/// Whether a step was made so.
spec fn entry_step(s: EntryStep) -> bool {
    call_ensures(next_value, (s.state, s.walk), (Some((s.given, s.rest)), s.reached)) && entry_read(
        s.reached,
        s.given,
        s.entry,
        s.behind,
    )
}

/// Whether `steps` were made one behind the other and led from `first` and `a` to `walk` and `b`.
spec fn entry_steps(
    first: HeldWalk,
    a: Lua,
    steps: Seq<EntryStep>,
    walk: HeldWalk,
    b: Lua,
) -> bool {
    &&& forall|i: int| 0 <= i < steps.len() ==> entry_step(#[trigger] steps[i])
    &&& forall|i: int, j: int|
        0 <= i && j == i + 1 && j < steps.len() ==> (#[trigger] steps[i]).rest == (
        #[trigger] steps[j]).walk && steps[i].behind == steps[j].state
    &&& if steps.len() == 0 {
        walk == first && b == a
    } else {
        &&& steps[0].walk == first
        &&& steps[0].state == a
        &&& steps.last().rest == walk
        &&& steps.last().behind == b
    }
}

/// The entries of steps.
spec fn entries_of(steps: Seq<EntryStep>) -> Seq<LuaEntry> {
    steps.map_values(|s: EntryStep| s.entry)
}

/// Whether a walk over a list, of which `steps` were made, is over in the state `b`: an entry holds
/// no name, the list is at its end, or it is as long as a list can be.
spec fn entries_over(steps: Seq<EntryStep>, walk: HeldWalk, last: Lua, b: Lua) -> bool {
    ||| steps.len() > 0 && !names_something(steps.last().entry) && b == last
    ||| call_ensures(
        next_value,
        (last, walk),
        (None::<(Result<HeldValue, LuaError>, HeldWalk)>, b),
    )
    ||| steps.len() == usize::MAX && b == last
}

/// Whether `r` are the entries for the values of a list, each judged before the walk went on to the
/// next, up to the first that holds no name.
spec fn entries_for(
    first: HeldWalk,
    a: Lua,
    steps: Seq<EntryStep>,
    walk: HeldWalk,
    last: Lua,
    r: Seq<LuaEntry>,
    b: Lua,
) -> bool {
    &&& entry_steps(first, a, steps, walk, last)
    &&& r == entries_of(steps)
    &&& forall|i: int| 0 <= i < r.len() - 1 ==> names_something(#[trigger] r[i])
    &&& entries_over(steps, walk, last, b)
}

/// Whether `r` are the entries in a table, up to the first that holds no name.
spec fn entries_read(a: Lua, t: &HeldTable, r: Seq<LuaEntry>, b: Lua) -> bool {
    exists|first: HeldWalk, steps: Seq<EntryStep>, walk: HeldWalk, last: Lua|
        #[trigger] entries_for(first, a, steps, walk, last, r, b) && call_ensures(
            values_in,
            (t,),
            first,
        )
}

proof fn lemma_entry_steps(
    first: HeldWalk,
    a: Lua,
    steps: Seq<EntryStep>,
    walk: HeldWalk,
    b: Lua,
    step: EntryStep,
)
    requires
        entry_steps(first, a, steps, walk, b),
        entry_step(step),
        step.walk == walk,
        step.state == b,
    ensures
        entry_steps(first, a, steps.push(step), step.rest, step.behind),
        entries_of(steps.push(step)) == entries_of(steps).push(step.entry),
{
    assert(entries_of(steps.push(step)) =~= entries_of(steps).push(step.entry));
}

/// The entries of a list of names, up to the first that holds none.
fn entries_in(now: Lua, t: &HeldTable) -> (r: (Vec<LuaEntry>, Lua))
    ensures
        entries_read(now, t, r.0@, r.1),
{
    let ghost a = now;
    let first = values_in(t);
    let ghost begun = first;
    let mut walk = first;
    let mut state = now;
    let ghost mut steps: Seq<EntryStep> = Seq::empty();
    let mut out: Vec<LuaEntry> = Vec::new();
    assert(out@ =~= entries_of(steps));
    while out.len() < usize::MAX
        invariant
            a == now,
            call_ensures(values_in, (t,), begun),
            entry_steps(begun, a, steps, walk, state),
            out@ == entries_of(steps),
            out@.len() == steps.len(),
            forall|i: int| 0 <= i < out@.len() ==> names_something(#[trigger] out@[i]),
        decreases usize::MAX - out@.len(),
    {
        let ghost before = state;
        let ghost at = walk;
        let (next, reached) = next_value(state, walk);
        match next {
            None => {
                assert(entries_for(begun, a, steps, at, before, out@, reached));
                return (out, reached);
            },
            Some((value, rest)) => {
                let ghost given = value;
                let ghost there = reached;
                let (entry, behind) = entry_of(reached, value);
                let found = has_name(&entry);
                proof {
                    let step = EntryStep {
                        walk: at,
                        state: before,
                        given,
                        reached: there,
                        entry,
                        rest,
                        behind,
                    };
                    lemma_entry_steps(begun, a, steps, at, before, step);
                    steps = steps.push(step);
                }
                out.push(entry);
                walk = rest;
                state = behind;
                if !found {
                    assert(entries_for(begun, a, steps, walk, state, out@, state));
                    return (out, state);
                }
            },
        }
    }
    assert(entries_for(begun, a, steps, walk, state, out@, state));
    (out, state)
}

/// Whether `r` are the names in the table that a function gave, or what was said of its failure.
spec fn names_given(a: Lua, given: Result<HeldTable, LuaError>, r: LuaNames, b: Lua) -> bool {
    match given {
        Ok(t) => r matches LuaNames::List(es) && entries_read(a, &t, es@, b),
        Err(e) => r matches LuaNames::Failed(m) && said_of(e, m) && b == a,
    }
}

/// Whether `r` is the list of names for a value; a function was called for it.
spec fn names_for(a: Lua, found: Found, r: LuaNames, b: Lua) -> bool {
    match found {
        Found::Nil => r is Missing && b == a,
        Found::List(t) => names_given(a, Ok(t), r, b),
        Found::Function(f) => exists|given: Result<HeldTable, LuaError>, called: Lua|
            #[trigger] call_ensures(call_with_table, (a, &f), (given, called)) && names_given(
                called,
                given,
                r,
                b,
            ),
        _ => r matches LuaNames::Other(kind) && kind@ == kind_text(found) && b == a,
    }
}

fn names_from(now: Lua, given: Result<HeldTable, LuaError>) -> (r: (LuaNames, Lua))
    ensures
        names_given(now, given, r.0, r.1),
{
    match given {
        Ok(t) => {
            let (entries, now) = entries_in(now, &t);
            (LuaNames::List(entries), now)
        },
        Err(e) => (LuaNames::Failed(said(e)), now),
    }
}

/// What holds a list of names, by the value that was found there; a function is called for it.
fn names_in(now: Lua, found: Found) -> (r: (LuaNames, Lua))
    ensures
        names_for(now, found, r.0, r.1),
{
    match found {
        Found::Nil => (LuaNames::Missing, now),
        Found::List(t) => names_from(now, Ok(t)),
        Found::Function(f) => {
            let ghost a = now;
            let (given, now) = call_with_table(now, &f);
            let ghost answer = given;
            assert(call_ensures(call_with_table, (a, &f), (answer, now)));
            names_from(now, given)
        },
        other => (LuaNames::Other(kind_of(&other)), now),
    }
}

/// Whether `r` is the list of names under `key`.
spec fn names_read(a: Lua, t: &HeldTable, key: &str, r: LuaNames, b: Lua) -> bool {
    exists|answer: Result<Found, LuaError>, between: Lua|
        #[trigger] value_read(a, t, key, answer, between) && match answer {
            Ok(f) => names_for(between, f, r, b),
            Err(e) => r matches LuaNames::Failed(m) && said_of(e, m) && b == between,
        }
}

fn read_names(now: Lua, t: &HeldTable, key: &str) -> (r: (LuaNames, Lua))
    ensures
        names_read(now, t, key, r.0, r.1),
{
    let ghost a = now;
    let (answer, now) = found_at(now, t, key);
    let ghost given = answer;
    assert(value_read(a, t, key, given, now));
    match answer {
        Ok(f) => names_in(now, f),
        Err(e) => (LuaNames::Failed(said(e)), now),
    }
}

// ---------------------------------------------------------------------------
// Lists of paths
// ---------------------------------------------------------------------------

/// Whether `r` are the texts that Lua gave, with what was said of those that it did not give.
spec fn all_told(given: Seq<Result<String, LuaError>>, r: Seq<Result<String, String>>) -> bool {
    r.len() == given.len() && forall|i: int| 0 <= i < r.len() ==> told_as(given[i], #[trigger] r[i])
}

/// Whether `r` are the texts in a table.
spec fn list_read(a: Lua, t: &HeldTable, r: Seq<Result<String, String>>, b: Lua) -> bool {
    exists|given: Vec<Result<String, LuaError>>|
        #[trigger] call_ensures(texts_in, (a, t), (given, b)) && all_told(given@, r)
}

fn list_texts(now: Lua, t: &HeldTable) -> (r: (Vec<Result<String, String>>, Lua))
    ensures
        list_read(now, t, r.0@, r.1),
{
    let ghost a = now;
    let (values, now) = texts_in(now, t);
    let ghost given = values;
    let mut out: Vec<Result<String, String>> = Vec::new();
    for v in it: values
        invariant
            call_ensures(texts_in, (a, t), (given, now)),
            it.seq() == given@,
            out@.len() == it.index(),
            forall|i: int| 0 <= i < out@.len() ==> told_as(given@[i], #[trigger] out@[i]),
    {
        let ghost before = out@;
        let text = told(v);
        out.push(text);
        assert(told_as(given@[before.len() as int], text));
    }
    assert(all_told(given@, out@));
    (out, now)
}

/// Whether `r` are the paths for a value: a text stands for itself alone.
spec fn paths_for(a: Lua, found: Found, r: LuaPaths, b: Lua) -> bool {
    match found {
        Found::Nil => r is Missing && b == a,
        Found::Text(s) => r matches LuaPaths::List(l) && l@.len() == 1 && string_read(s, l@[0])
            && b == a,
        Found::List(t) => r matches LuaPaths::List(l) && list_read(a, &t, l@, b),
        _ => r matches LuaPaths::Other(kind) && kind@ == kind_text(found) && b == a,
    }
}

/// What holds a path or a list of paths, by the value that was found there.
fn paths_in(now: Lua, found: Found) -> (r: (LuaPaths, Lua))
    ensures
        paths_for(now, found, r.0, r.1),
{
    match found {
        Found::Nil => (LuaPaths::Missing, now),
        Found::Text(s) => {
            let mut out: Vec<Result<String, String>> = Vec::new();
            out.push(string_text(&s));
            (LuaPaths::List(out), now)
        },
        Found::List(t) => {
            let (texts, now) = list_texts(now, &t);
            (LuaPaths::List(texts), now)
        },
        other => (LuaPaths::Other(kind_of(&other)), now),
    }
}

/// Whether `r` are the paths under `key`.
spec fn paths_read_at(a: Lua, t: &HeldTable, key: &str, r: LuaPaths, b: Lua) -> bool {
    exists|answer: Result<Found, LuaError>, between: Lua|
        #[trigger] value_read(a, t, key, answer, between) && match answer {
            Ok(f) => paths_for(between, f, r, b),
            Err(e) => r matches LuaPaths::Failed(m) && said_of(e, m) && b == between,
        }
}

fn read_paths_at(now: Lua, t: &HeldTable, key: &str) -> (r: (LuaPaths, Lua))
    ensures
        paths_read_at(now, t, key, r.0, r.1),
{
    let ghost a = now;
    let (answer, now) = found_at(now, t, key);
    let ghost given = answer;
    assert(value_read(a, t, key, given, now));
    match answer {
        Ok(f) => paths_in(now, f),
        Err(e) => (LuaPaths::Failed(said(e)), now),
    }
}

/// Whether `r` is what stands under `key`, and, where nothing does, under its other name.
spec fn paths_read(
    a: Lua,
    t: &HeldTable,
    key: &str,
    other: &str,
    r: (LuaPaths, LuaPaths),
    b: Lua,
) -> bool {
    exists|between: Lua|
        #[trigger] paths_read_at(a, t, key, r.0, between) && if r.0 is Missing {
            paths_read_at(between, t, other, r.1, b)
        } else {
            r.1 is Missing && b == between
        }
}

/// What stands under `key`, and, where nothing does, under its other name.
fn read_paths(now: Lua, t: &HeldTable, key: &str, other: &str) -> (r: ((LuaPaths, LuaPaths), Lua))
    ensures
        paths_read(now, t, key, other, r.0, r.1),
{
    let ghost a = now;
    let (first, now) = read_paths_at(now, t, key);
    assert(paths_read_at(a, t, key, first, now));
    match first {
        LuaPaths::Missing => {
            let (second, now) = read_paths_at(now, t, other);
            ((LuaPaths::Missing, second), now)
        },
        given => ((given, LuaPaths::Missing), now),
    }
}

// ---------------------------------------------------------------------------
// Options
// ---------------------------------------------------------------------------

/// Whether `r` is the option for a value.
spec fn option_for(found: Found, r: LuaOption) -> bool {
    match found {
        Found::Boolean(b) => r == LuaOption::Boolean(b),
        Found::Integer(i) => r == LuaOption::Integer(i),
        Found::Number(n) => r matches LuaOption::Number(text) && call_ensures(
            number_text,
            (&n,),
            text,
        ),
        Found::Text(s) => r matches LuaOption::Text(text) && string_read(s, text),
        _ => r matches LuaOption::Other(kind) && kind@ == kind_text(found),
    }
}

/// The value of an option, by the value that was found.
fn option_in(found: Found) -> (r: LuaOption)
    ensures
        option_for(found, r),
{
    match found {
        Found::Boolean(b) => LuaOption::Boolean(b),
        Found::Integer(i) => LuaOption::Integer(i),
        Found::Number(n) => LuaOption::Number(number_text(&n)),
        Found::Text(s) => LuaOption::Text(string_text(&s)),
        other => LuaOption::Other(kind_of(&other)),
    }
}

/// Whether `r` is the option for a pair that Lua gave, or what was said of one that it did not
/// give.
spec fn pair_read(
    given: Result<(String, HeldValue), LuaError>,
    r: Result<(String, LuaOption), String>,
) -> bool {
    match given {
        Ok((k, v)) => r matches Ok(o) && o.0 == k && exists|f: Found|
            #[trigger] call_ensures(classify, (v,), f) && option_for(f, o.1),
        Err(e) => r matches Err(m) && said_of(e, m),
    }
}

fn pair_of(given: Result<(String, HeldValue), LuaError>) -> (r: Result<
    (String, LuaOption),
    String,
>)
    ensures
        pair_read(given, r),
{
    match given {
        Ok((k, v)) => {
            let f = classify(v);
            let ghost found = f;
            assert(call_ensures(classify, (v,), found));
            Ok((k, option_in(f)))
        },
        Err(e) => Err(said(e)),
    }
}

/// One step of a walk over pairs: the walk and the state before it, the pair that it came to, its
/// option, and the walk and the state behind it.
struct PairStep<'a> {
    walk: HeldPairs<'a>,
    state: Lua,
    given: Result<(String, HeldValue), LuaError>,
    option: Result<(String, LuaOption), String>,
    rest: HeldPairs<'a>,
    behind: Lua,
}

/// Whether a step was made so.
spec fn pair_step(s: PairStep) -> bool {
    call_ensures(next_pair, (s.state, s.walk), (Some((s.given, s.rest)), s.behind)) && pair_read(
        s.given,
        s.option,
    )
}

/// Whether `steps` were made one behind the other and led from `first` and `a` to `walk` and `b`.
spec fn pair_steps(
    first: HeldPairs,
    a: Lua,
    steps: Seq<PairStep>,
    walk: HeldPairs,
    b: Lua,
) -> bool {
    &&& forall|i: int| 0 <= i < steps.len() ==> pair_step(#[trigger] steps[i])
    &&& forall|i: int, j: int|
        0 <= i && j == i + 1 && j < steps.len() ==> (#[trigger] steps[i]).rest == (
        #[trigger] steps[j]).walk && steps[i].behind == steps[j].state
    &&& if steps.len() == 0 {
        walk == first && b == a
    } else {
        &&& steps[0].walk == first
        &&& steps[0].state == a
        &&& steps.last().rest == walk
        &&& steps.last().behind == b
    }
}

/// The options of steps.
spec fn options_of_steps(steps: Seq<PairStep>) -> Seq<Result<(String, LuaOption), String>> {
    steps.map_values(|s: PairStep| s.option)
}

/// Whether `r` are the options for the pairs of a walk, in their order, to its end or to what a
/// list can hold.
spec fn pairs_for(
    first: HeldPairs,
    a: Lua,
    steps: Seq<PairStep>,
    walk: HeldPairs,
    last: Lua,
    r: Seq<Result<(String, LuaOption), String>>,
    b: Lua,
) -> bool {
    &&& pair_steps(first, a, steps, walk, last)
    &&& r == options_of_steps(steps)
    &&& {
        ||| call_ensures(
            next_pair,
            (last, walk),
            (None::<(Result<(String, HeldValue), LuaError>, HeldPairs)>, b),
        )
        ||| steps.len() == usize::MAX && b == last
    }
}

/// Whether `r` are the options in a table.
spec fn pairs_read(
    a: Lua,
    t: &HeldTable,
    r: Seq<Result<(String, LuaOption), String>>,
    b: Lua,
) -> bool {
    exists|first: HeldPairs, steps: Seq<PairStep>, walk: HeldPairs, last: Lua|
        #[trigger] pairs_for(first, a, steps, walk, last, r, b) && call_ensures(
            pairs_in,
            (t,),
            first,
        )
}

proof fn lemma_pair_steps(
    first: HeldPairs,
    a: Lua,
    steps: Seq<PairStep>,
    walk: HeldPairs,
    b: Lua,
    step: PairStep,
)
    requires
        pair_steps(first, a, steps, walk, b),
        pair_step(step),
        step.walk == walk,
        step.state == b,
    ensures
        pair_steps(first, a, steps.push(step), step.rest, step.behind),
        options_of_steps(steps.push(step)) == options_of_steps(steps).push(step.option),
{
    assert(options_of_steps(steps.push(step)) =~= options_of_steps(steps).push(step.option));
}

fn options_in(now: Lua, t: &HeldTable) -> (r: (Vec<Result<(String, LuaOption), String>>, Lua))
    ensures
        pairs_read(now, t, r.0@, r.1),
{
    let ghost a = now;
    let first = pairs_in(t);
    let ghost begun = first;
    let mut walk = first;
    let mut state = now;
    let ghost mut steps: Seq<PairStep> = Seq::empty();
    let mut out: Vec<Result<(String, LuaOption), String>> = Vec::new();
    assert(out@ =~= options_of_steps(steps));
    while out.len() < usize::MAX
        invariant
            a == now,
            call_ensures(pairs_in, (t,), begun),
            pair_steps(begun, a, steps, walk, state),
            out@ == options_of_steps(steps),
            out@.len() == steps.len(),
        decreases usize::MAX - out@.len(),
    {
        let ghost before = state;
        let ghost at = walk;
        let (next, behind) = next_pair(state, walk);
        match next {
            None => {
                assert(pairs_for(begun, a, steps, at, before, out@, behind));
                return (out, behind);
            },
            Some((pair, rest)) => {
                let ghost given = pair;
                let option = pair_of(pair);
                proof {
                    let step = PairStep { walk: at, state: before, given, option, rest, behind };
                    lemma_pair_steps(begun, a, steps, at, before, step);
                    steps = steps.push(step);
                }
                out.push(option);
                walk = rest;
                state = behind;
            },
        }
    }
    assert(pairs_for(begun, a, steps, walk, state, out@, state));
    (out, state)
}

/// Whether `r` is what stands under `options`.
spec fn options_read(a: Lua, t: &HeldTable, r: LuaOptions, b: Lua) -> bool {
    exists|answer: Result<Option<HeldTable>, LuaError>, between: Lua|
        #[trigger] call_ensures(optional_table_at, (a, t, "options"), (answer, between))
            && match answer {
            Ok(None) => r is Missing && b == between,
            Ok(Some(options)) => r matches LuaOptions::List(l) && pairs_read(
                between,
                &options,
                l@,
                b,
            ),
            Err(e) => r matches LuaOptions::Failed(m) && said_of(e, m) && b == between,
        }
}

fn read_options(now: Lua, t: &HeldTable) -> (r: (LuaOptions, Lua))
    ensures
        options_read(now, t, r.0, r.1),
{
    let ghost a = now;
    let (answer, now) = optional_table_at(now, t, "options");
    let ghost given = answer;
    assert(call_ensures(optional_table_at, (a, t, "options"), (given, now)));
    match answer {
        Ok(None) => (LuaOptions::Missing, now),
        Ok(Some(options)) => {
            let (list, now) = options_in(now, &options);
            (LuaOptions::List(list), now)
        },
        Err(e) => (LuaOptions::Failed(said(e)), now),
    }
}

// ---------------------------------------------------------------------------
// The package
// ---------------------------------------------------------------------------

/// A package of which only the name was read.
spec fn named(name: Result<String, String>) -> LuaPackage {
    LuaPackage {
        name,
        latest: Ok(None),
        version: Ok(None),
        strategy: Ok(None),
        abi_ignores: Ok(None),
        import_name: Ok(None),
        source: LuaSource::Missing,
        dependencies: LuaNames::Missing,
        tools: LuaNames::Missing,
        include_dirs: (LuaPaths::Missing, LuaPaths::Missing),
        libraries: (LuaPaths::Missing, LuaPaths::Missing),
        binaries: (LuaPaths::Missing, LuaPaths::Missing),
        patches: (LuaPaths::Missing, LuaPaths::Missing),
        options: LuaOptions::Missing,
    }
}

/// What was known of the package `p` when the first `n` of its single fields had been read.
spec fn headed(p: LuaPackage, n: int) -> LuaPackage {
    LuaPackage {
        latest: if n > 1 { p.latest } else { Ok(None) },
        version: if n > 2 { p.version } else { Ok(None) },
        strategy: if n > 3 { p.strategy } else { Ok(None) },
        abi_ignores: if n > 4 { p.abi_ignores } else { Ok(None) },
        import_name: if n > 5 { p.import_name } else { Ok(None) },
        source: if n > 6 { p.source } else { LuaSource::Missing },
        ..named(p.name)
    }
}

/// What was known of the package `p` when the first `n` of its lists had been read, behind its
/// single fields.
spec fn listed(p: LuaPackage, n: int) -> LuaPackage {
    LuaPackage {
        dependencies: if n > 0 { p.dependencies } else { LuaNames::Missing },
        tools: if n > 1 { p.tools } else { LuaNames::Missing },
        include_dirs: if n > 2 { p.include_dirs } else { (LuaPaths::Missing, LuaPaths::Missing) },
        libraries: if n > 3 { p.libraries } else { (LuaPaths::Missing, LuaPaths::Missing) },
        binaries: if n > 4 { p.binaries } else { (LuaPaths::Missing, LuaPaths::Missing) },
        patches: if n > 5 { p.patches } else { (LuaPaths::Missing, LuaPaths::Missing) },
        options: if n > 6 { p.options } else { LuaOptions::Missing },
        ..headed(p, 7)
    }
}

/// Whether nothing is wrong with what is known of a package.
spec fn is_sound(p: LuaPackage, requested: Option<&str>) -> bool {
    recipe_of(p, opt_str(requested)) is Ok
}

/// Whether `r` holds the single fields of a table other than its source, read one behind the other
/// in the states `s`. Each was read if nothing was wrong before it; the version was not where one
/// is asked for.
spec fn head_steps(s: Seq<Lua>, t: &HeldTable, requested: Option<&str>, r: LuaPackage) -> bool {
    &&& s.len() == 7
    &&& r == headed(r, 6)
    &&& text_read(s[0], t, "name", r.name, s[1])
    &&& field_if(is_sound(headed(r, 1), requested), s[1], t, "latest", r.latest, s[2])
    &&& field_if(
        requested is None && is_sound(headed(r, 2), requested),
        s[2],
        t,
        "version",
        r.version,
        s[3],
    )
    &&& field_if(is_sound(headed(r, 3), requested), s[3], t, "strategy", r.strategy, s[4])
    &&& texts_if(is_sound(headed(r, 4), requested), s[4], t, "abi_ignores", r.abi_ignores, s[5])
    &&& field_if(is_sound(headed(r, 5), requested), s[5], t, "import_name", r.import_name, s[6])
}

/// Whether `r` holds the single fields of a table other than its source.
spec fn head_read(a: Lua, t: &HeldTable, requested: Option<&str>, r: LuaPackage, b: Lua) -> bool {
    exists|s: Seq<Lua>| #[trigger] head_steps(s, t, requested, r) && s[0] == a && s[6] == b
}

/// The version that a function under `source` is called with.
spec fn version_text(p: LuaPackage, requested: Option<&str>) -> Seq<char> {
    match field(p.latest) {
        Ok(latest) => match version_of(opt_str(requested), field(p.version), latest) {
            Ok(Some(v)) => v,
            _ => ""@,
        },
        Err(_) => ""@,
    }
}

/// Whether `r` was read as the source for a version, if it was `wanted`.
spec fn source_if(
    wanted: bool,
    a: Lua,
    t: &HeldTable,
    version: Seq<char>,
    r: LuaSource,
    b: Lua,
) -> bool {
    if wanted {
        exists|v: &str| v@ == version && #[trigger] source_read(a, t, v, r, b)
    } else {
        r is Missing && b == a
    }
}

/// Whether `r` was read as the names under `key`, if it was `wanted`.
spec fn names_if(wanted: bool, a: Lua, t: &HeldTable, key: &str, r: LuaNames, b: Lua) -> bool {
    if wanted {
        names_read(a, t, key, r, b)
    } else {
        r is Missing && b == a
    }
}

fn names_at(wanted: bool, now: Lua, t: &HeldTable, key: &str) -> (r: (LuaNames, Lua))
    ensures
        names_if(wanted, now, t, key, r.0, r.1),
{
    if wanted {
        read_names(now, t, key)
    } else {
        (LuaNames::Missing, now)
    }
}

/// Whether `r` was read as the paths under `key` or its other name, if it was `wanted`.
spec fn paths_if(
    wanted: bool,
    a: Lua,
    t: &HeldTable,
    key: &str,
    other: &str,
    r: (LuaPaths, LuaPaths),
    b: Lua,
) -> bool {
    if wanted {
        paths_read(a, t, key, other, r, b)
    } else {
        r.0 is Missing && r.1 is Missing && b == a
    }
}

fn paths_at(wanted: bool, now: Lua, t: &HeldTable, key: &str, other: &str) -> (r: (
    (LuaPaths, LuaPaths),
    Lua,
))
    ensures
        paths_if(wanted, now, t, key, other, r.0, r.1),
{
    if wanted {
        read_paths(now, t, key, other)
    } else {
        ((LuaPaths::Missing, LuaPaths::Missing), now)
    }
}

/// Whether `r` was read as the options, if it was `wanted`.
spec fn options_if(wanted: bool, a: Lua, t: &HeldTable, r: LuaOptions, b: Lua) -> bool {
    if wanted {
        options_read(a, t, r, b)
    } else {
        r is Missing && b == a
    }
}

fn options_at(wanted: bool, now: Lua, t: &HeldTable) -> (r: (LuaOptions, Lua))
    ensures
        options_if(wanted, now, t, r.0, r.1),
{
    if wanted {
        read_options(now, t)
    } else {
        (LuaOptions::Missing, now)
    }
}

/// Whether `r` holds the lists of a table, read one behind the other in the states `s`, each if
/// nothing was wrong before it.
spec fn list_steps(s: Seq<Lua>, t: &HeldTable, requested: Option<&str>, r: LuaPackage) -> bool {
    &&& s.len() == 8
    &&& r == listed(r, 7)
    &&& names_if(
        is_sound(listed(r, 0), requested),
        s[0],
        t,
        "dependencies",
        r.dependencies,
        s[1],
    )
    &&& names_if(is_sound(listed(r, 1), requested), s[1], t, "tools", r.tools, s[2])
    &&& paths_if(
        is_sound(listed(r, 2), requested),
        s[2],
        t,
        "include_dirs",
        "includes",
        r.include_dirs,
        s[3],
    )
    &&& paths_if(
        is_sound(listed(r, 3), requested),
        s[3],
        t,
        "libraries",
        "lib",
        r.libraries,
        s[4],
    )
    &&& paths_if(is_sound(listed(r, 4), requested), s[4], t, "binaries", "bin", r.binaries, s[5])
    &&& paths_if(is_sound(listed(r, 5), requested), s[5], t, "patches", "patch", r.patches, s[6])
    &&& options_if(is_sound(listed(r, 6), requested), s[6], t, r.options, s[7])
}

/// Whether `r` holds the lists of a table.
spec fn lists_read(a: Lua, t: &HeldTable, requested: Option<&str>, r: LuaPackage, b: Lua) -> bool {
    exists|s: Seq<Lua>| #[trigger] list_steps(s, t, requested, r) && s[0] == a && s[7] == b
}

/// Whether `r` is what a table holds, read in order and no further than the first thing wrong.
spec fn package_read(
    a: Lua,
    t: &HeldTable,
    requested: Option<&str>,
    r: LuaPackage,
    b: Lua,
) -> bool {
    exists|s: Lua, l: Lua|
        #[trigger] head_read(a, t, requested, headed(r, 6), s) && source_if(
            is_sound(headed(r, 6), requested),
            s,
            t,
            version_text(r, requested),
            r.source,
            l,
        ) && #[trigger] lists_read(l, t, requested, r, b)
}

fn nothing_read(name: Result<String, String>) -> (r: LuaPackage)
    ensures
        r == named(name),
{
    LuaPackage {
        name,
        latest: Ok(None),
        version: Ok(None),
        strategy: Ok(None),
        abi_ignores: Ok(None),
        import_name: Ok(None),
        source: LuaSource::Missing,
        dependencies: LuaNames::Missing,
        tools: LuaNames::Missing,
        include_dirs: (LuaPaths::Missing, LuaPaths::Missing),
        libraries: (LuaPaths::Missing, LuaPaths::Missing),
        binaries: (LuaPaths::Missing, LuaPaths::Missing),
        patches: (LuaPaths::Missing, LuaPaths::Missing),
        options: LuaOptions::Missing,
    }
}

/// What a recipe is for. The version is read only where none is asked for.
fn read_head(now: Lua, t: &HeldTable, requested: Option<&str>) -> (r: (LuaPackage, Lua))
    ensures
        head_read(now, t, requested, r.0, r.1),
{
    let ghost s0 = now;
    let (name, now) = name_at(now, t, "name");
    let mut p = nothing_read(name);
    let ghost s1 = now;
    let (latest, now) = field_at(p.recipe(requested).is_ok(), now, t, "latest");
    p.latest = latest;
    let ghost s2 = now;
    let wanted = requested.is_none() && p.recipe(requested).is_ok();
    let (version, now) = field_at(wanted, now, t, "version");
    p.version = version;
    let ghost s3 = now;
    let (strategy, now) = field_at(p.recipe(requested).is_ok(), now, t, "strategy");
    p.strategy = strategy;
    let ghost s4 = now;
    let (abi_ignores, now) = list_at(p.recipe(requested).is_ok(), now, t, "abi_ignores");
    p.abi_ignores = abi_ignores;
    let ghost s5 = now;
    let (import_name, now) = field_at(p.recipe(requested).is_ok(), now, t, "import_name");
    p.import_name = import_name;
    assert(head_steps(seq![s0, s1, s2, s3, s4, s5, now], t, requested, p));
    (p, now)
}

fn read_lists(now: Lua, t: &HeldTable, requested: Option<&str>, head: LuaPackage) -> (r: (
    LuaPackage,
    Lua,
))
    requires
        head == headed(head, 7),
    ensures
        lists_read(now, t, requested, r.0, r.1),
        headed(r.0, 7) == head,
{
    let ghost s0 = now;
    let mut p = head;
    let (dependencies, now) = names_at(p.recipe(requested).is_ok(), now, t, "dependencies");
    p.dependencies = dependencies;
    let ghost s1 = now;
    let (tools, now) = names_at(p.recipe(requested).is_ok(), now, t, "tools");
    p.tools = tools;
    let ghost s2 = now;
    let ok = p.recipe(requested).is_ok();
    let (include_dirs, now) = paths_at(ok, now, t, "include_dirs", "includes");
    p.include_dirs = include_dirs;
    let ghost s3 = now;
    let ok = p.recipe(requested).is_ok();
    let (libraries, now) = paths_at(ok, now, t, "libraries", "lib");
    p.libraries = libraries;
    let ghost s4 = now;
    let ok = p.recipe(requested).is_ok();
    let (binaries, now) = paths_at(ok, now, t, "binaries", "bin");
    p.binaries = binaries;
    let ghost s5 = now;
    let ok = p.recipe(requested).is_ok();
    let (patches, now) = paths_at(ok, now, t, "patches", "patch");
    p.patches = patches;
    let ghost s6 = now;
    let (options, now) = options_at(p.recipe(requested).is_ok(), now, t);
    p.options = options;
    assert(list_steps(seq![s0, s1, s2, s3, s4, s5, s6, now], t, requested, p));
    (p, now)
}

/// What a table holds. Nothing more is read, and no function called, once something is wrong.
fn read_package(now: Lua, t: &HeldTable, requested: Option<&str>) -> (r: (LuaPackage, Lua))
    ensures
        package_read(now, t, requested, r.0, r.1),
{
    let ghost a = now;
    let (mut p, now) = read_head(now, t, requested);
    let ghost s = now;
    let ghost head = p;
    let version = match p.version(requested) {
        Ok(Some(v)) => v,
        _ => "".to_owned(),
    };
    let (source, now) = if p.recipe(requested).is_ok() {
        read_source(now, t, version.as_str())
    } else {
        (LuaSource::Missing, now)
    };
    p.source = source;
    let ghost l = now;
    let (r, now) = read_lists(now, t, requested, p);
    assert(headed(r, 6) == head);
    assert(head_read(a, t, requested, headed(r, 6), s));
    assert(lists_read(l, t, requested, r, now));
    (r, now)
}

// ---------------------------------------------------------------------------
// The engine
// ---------------------------------------------------------------------------

/// What scripts do not find among their global functions.
pub const HIDDEN_GLOBALS: [&'static str; 5] = [
    "dofile",
    "loadfile",
    "load",
    "require",
    "collectgarbage",
];

/// Recipes may come from third parties, so they run without `os`, `io`, `require`, `dofile` or
/// `loadfile` and cannot touch the filesystem or spawn processes.
pub struct LuaRecipeEngine {
    lua: Lua,
}

/// Whether `r` is the set `a` with one more library.
spec fn library_added(a: StdLib, which: Library, r: StdLib) -> bool {
    exists|b: StdLib|
        call_ensures(library, (which,), b) && #[trigger] call_ensures(with_libraries, (a, b), r)
}

/// Whether `r` is the set of the libraries that scripts have: those for tables, texts, numbers and
/// UTF-8, and no other.
spec fn sandbox(r: StdLib) -> bool {
    exists|one: StdLib, two: StdLib, three: StdLib|
        call_ensures(library, (Library::Table,), one) && #[trigger] library_added(
            one,
            Library::Text,
            two,
        ) && #[trigger] library_added(two, Library::Math, three) && library_added(
            three,
            Library::Utf8,
            r,
        )
}

fn add_library(a: StdLib, which: Library) -> (r: StdLib)
    ensures
        library_added(a, which, r),
{
    let b = library(which);
    with_libraries(a, b)
}

fn sandbox_libraries() -> (r: StdLib)
    ensures
        sandbox(r),
{
    let one = library(Library::Table);
    let two = add_library(one, Library::Text);
    let three = add_library(two, Library::Math);
    add_library(three, Library::Utf8)
}

/// Whether `r` is the recipe of what was read of the `package` table, or the error of a script that
/// left none.
spec fn recipe_read(
    a: Lua,
    package: Option<HeldTable>,
    requested: Option<&str>,
    r: Result<Recipe, String>,
) -> bool {
    match package {
        None => recipe_view(r) == Err::<RecipeView, Seq<char>>(
            "recipe must define a global `package` table"@,
        ),
        Some(t) => exists|p: LuaPackage, b: Lua| #[trigger]
            package_read(a, &t, requested, p, b) && recipe_view(r) == recipe_of(
                p,
                opt_str(requested),
            ),
    }
}

/// Whether `r` is the recipe of what stands under `package` among the globals of the state `a`, or
/// what was said of its not being a table.
spec fn global_read(a: Lua, requested: Option<&str>, r: Result<Recipe, String>) -> bool {
    exists|g: HeldTable, package: Result<Option<HeldTable>, LuaError>, b: Lua|
        call_ensures(globals, (&a,), g) && #[trigger] call_ensures(
            optional_table_at,
            (a, &g, "package"),
            (package, b),
        ) && match package {
            Ok(t) => recipe_read(b, t, requested, r),
            Err(e) => r matches Err(m) && said_of(e, m),
        }
}

/// The recipe in the `package` table of a script, where it left one.
fn recipe_in(now: Lua, package: Option<HeldTable>, requested_version: Option<&str>) -> (r: Result<
    Recipe,
    String,
>)
    ensures
        recipe_read(now, package, requested_version, r),
        r matches Ok(x) ==> x.options.wf() && (requested_version is Some ==> opt_view(x.version)
            == opt_str(requested_version)),
{
    match package {
        None => Err("recipe must define a global `package` table".to_owned()),
        Some(t) => {
            let ghost a = now;
            let (p, now) = read_package(now, &t, requested_version);
            proof {
                assert(package_read(a, &t, requested_version, p, now));
                if let Some(v) = requested_version {
                    the_requested_version_is_kept(p, v@);
                }
            }
            p.recipe(requested_version)
        },
    }
}

/// The recipe of what stands under `package` among the globals of a state.
fn recipe_in_globals(now: Lua, requested_version: Option<&str>) -> (r: Result<Recipe, String>)
    ensures
        global_read(now, requested_version, r),
        r is Ok ==> exists|p: LuaPackage|
            recipe_view(r) == #[trigger] recipe_of(p, opt_str(requested_version)),
        r matches Ok(x) ==> x.options.wf() && (requested_version is Some ==> opt_view(x.version)
            == opt_str(requested_version)),
{
    let ghost a = now;
    let g = globals(&now);
    let (package, now) = optional_table_at(now, &g, "package");
    let ghost found = package;
    assert(call_ensures(optional_table_at, (a, &g, "package"), (found, now)));
    match package {
        Ok(t) => recipe_in(now, t, requested_version),
        Err(e) => Err(said(e)),
    }
}

impl LuaRecipeEngine {
    /// Whether `r` is an engine on the state that is left when the hidden globals from number `i`
    /// on were taken out of `lua`, one behind the other, or what was said of the first that could
    /// not be.
    spec fn hidden_from(lua: Lua, i: int, r: Result<LuaRecipeEngine, String>) -> bool
        decreases HIDDEN_GLOBALS@.len() - i,
    {
        if i < 0 || i >= HIDDEN_GLOBALS@.len() {
            r matches Ok(engine) && engine.lua == lua
        } else {
            exists|g: HeldTable, outcome: Result<Lua, LuaError>|
                call_ensures(globals, (&lua,), g) && #[trigger] call_ensures(
                    forget,
                    (lua, &g, HIDDEN_GLOBALS@[i]),
                    outcome,
                ) && match outcome {
                    Ok(after) => Self::hidden_from(after, i + 1, r),
                    Err(e) => r matches Err(m) && said_of(e, m),
                }
        }
    }

    /// Whether `r` is an engine on a state that was made with the libraries of the sandbox alone and
    /// out of which every hidden global was taken, or what was said of the first step to it that
    /// failed.
    pub closed spec fn made(r: Result<LuaRecipeEngine, String>) -> bool {
        exists|libraries: StdLib, state: Result<Lua, LuaError>|
            sandbox(libraries) && #[trigger] call_ensures(new_state, (libraries,), state)
                && match state {
                Ok(lua) => Self::hidden_from(lua, 0, r),
                Err(e) => r matches Err(m) && said_of(e, m),
            }
    }

    /// Whether `r` is the recipe of the `package` table that was found after the script had run in
    /// the state of the engine, or what was said of a script that failed.
    pub closed spec fn loaded(
        &self,
        code: &str,
        requested: Option<&str>,
        r: Result<Recipe, String>,
    ) -> bool {
        exists|ran: Result<Lua, LuaError>| #[trigger]
            call_ensures(execute, (&self.lua, code), ran) && match ran {
                Ok(after) => global_read(after, requested, r),
                Err(e) => r matches Err(m) && said_of(e, m),
            }
    }

    fn hide_from(lua: Lua, i: usize) -> (r: Result<Self, String>)
        requires
            i <= HIDDEN_GLOBALS@.len(),
        ensures
            Self::hidden_from(lua, i as int, r),
        decreases HIDDEN_GLOBALS@.len() - i,
    {
        let names = HIDDEN_GLOBALS;
        if i >= names.len() {
            return Ok(LuaRecipeEngine { lua });
        }
        let ghost a = lua;
        let g = globals(&lua);
        let outcome = forget(lua, &g, names[i]);
        let ghost came = outcome;
        assert(call_ensures(forget, (a, &g, HIDDEN_GLOBALS@[i as int]), came));
        match outcome {
            Ok(after) => Self::hide_from(after, i + 1),
            Err(e) => Err(said(e)),
        }
    }

    /// An engine whose scripts have neither files nor processes. It fails only where the state
    /// cannot be made, or a global not be taken out of it.
    pub fn new() -> (r: Result<Self, String>)
        ensures
            Self::made(r),
    {
        let libraries = sandbox_libraries();
        let state = new_state(libraries);
        let ghost given = state;
        assert(call_ensures(new_state, (libraries,), given));
        match state {
            Ok(lua) => Self::hide_from(lua, 0),
            Err(e) => Err(said(e)),
        }
    }

    /// Runs a script and makes a recipe of its `package` table. What comes back is the recipe of
    /// what was read of that table, or the first error in it; what it holds, the script decides. A
    /// script that does not end keeps this from returning.
    pub fn load_recipe_from_str(&self, code: &str, requested_version: Option<&str>) -> (r: Result<
        Recipe,
        String,
    >)
        ensures
            self.loaded(code, requested_version, r),
            r is Ok ==> exists|p: LuaPackage|
                recipe_view(r) == #[trigger] recipe_of(p, opt_str(requested_version)),
            r matches Ok(x) ==> x.options.wf() && (requested_version is Some ==> opt_view(
                x.version,
            ) == opt_str(requested_version)),
    {
        let ran = execute(&self.lua, code);
        let ghost came = ran;
        assert(call_ensures(execute, (&self.lua, code), came));
        match ran {
            Ok(after) => recipe_in_globals(after, requested_version),
            Err(e) => Err(said(e)),
        }
    }
}

} // verus!
