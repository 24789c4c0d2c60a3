//! The Lua states that recipes run in, and the handles of what is in them.
//!
//! A handle of `mlua` may be used only while its state lives, and only with handles of the same
//! state. So a handle is held here together with its state, by structs that nothing but the
//! functions of this module makes: no use of one can fail for want of its state.
//!
//! A state changes under its handles. The functions that ask something of a state take `now`, the
//! state as it is, and hand it on as it is then, so that a contract can say what was asked behind
//! what. Nothing else is claimed of any answer: a script may ask for random numbers, the order of
//! the pairs of a table is chosen anew by every state, and functions of the script run while its
//! tables are read.
use mlua::prelude::{
    LuaError, LuaFunction, LuaString, LuaTable, LuaTablePairs, LuaTableSequence, LuaValue,
};
use mlua::{Lua, StdLib};
use vstd::prelude::*;

verus! {

// ---------------------------------------------------------------------------
// Types
// ---------------------------------------------------------------------------

/// `mlua::Lua`, a state in which scripts run.
#[verifier::external_type_specification]
#[verifier::external_body]
pub struct ExLua(mlua::Lua);

/// `mlua::Table`, a handle of a table of a state.
#[verifier::external_type_specification]
#[verifier::external_body]
pub struct ExLuaTable(mlua::prelude::LuaTable);

/// `mlua::Function`, a handle of a function of a state.
#[verifier::external_type_specification]
#[verifier::external_body]
pub struct ExLuaFunction(mlua::prelude::LuaFunction);

/// `mlua::LuaString`, a handle of a string of a state, which need not be UTF-8.
#[verifier::external_type_specification]
#[verifier::external_body]
pub struct ExLuaString(mlua::prelude::LuaString);

/// `mlua::Value`, any value of a state.
#[verifier::external_type_specification]
#[verifier::external_body]
pub struct ExLuaValue(mlua::prelude::LuaValue);

/// `mlua::Error`, what went wrong in a state or in a conversion from one.
#[verifier::external_type_specification]
#[verifier::external_body]
pub struct ExLuaError(mlua::prelude::LuaError);

/// `mlua::StdLib`, a set of standard libraries.
#[verifier::external_type_specification]
#[verifier::external_body]
pub struct ExStdLib(mlua::StdLib);

/// `mlua::TableSequence`, a walk over the list part of a table.
#[verifier::external_type_specification]
#[verifier::external_body]
#[verifier::reject_recursive_types(V)]
pub struct ExLuaTableSequence<'a, V>(mlua::prelude::LuaTableSequence<'a, V>);

/// `mlua::TablePairs`, a walk over the pairs of a table.
#[verifier::external_type_specification]
#[verifier::external_body]
#[verifier::reject_recursive_types(K)]
#[verifier::reject_recursive_types(V)]
pub struct ExLuaTablePairs<'a, K, V>(mlua::prelude::LuaTablePairs<'a, K, V>);

/// A table and its state.
pub(crate) struct HeldTable {
    lua: Lua,
    table: LuaTable,
}

/// A function and its state.
pub(crate) struct HeldFunction {
    lua: Lua,
    function: LuaFunction,
}

/// A string and its state.
pub(crate) struct HeldString {
    lua: Lua,
    text: LuaString,
}

/// A value and its state.
pub(crate) struct HeldValue {
    lua: Lua,
    value: LuaValue,
}

/// A walk over a list, and its state.
pub(crate) struct HeldWalk<'a> {
    lua: Lua,
    walk: LuaTableSequence<'a, LuaValue>,
}

/// A walk over pairs, and its state.
pub(crate) struct HeldPairs<'a> {
    lua: Lua,
    walk: LuaTablePairs<'a, String, LuaValue>,
}

/// A standard library of Lua.
pub(crate) enum Library {
    Table,
    Text,
    Math,
    Utf8,
}

/// A value of a state by its type, with what is read of it.
pub(crate) enum Found {
    Nil,
    Boolean(bool),
    LightUserData,
    Integer(i64),
    Number(LuaValue),
    Text(HeldString),
    List(HeldTable),
    Function(HeldFunction),
    Thread,
    UserData,
    Error,
    Other,
}

// ---------------------------------------------------------------------------
// States
// ---------------------------------------------------------------------------

/// The constants of `mlua::StdLib`, one for each library. Nothing is claimed of the sets.
#[verifier::external_body]
pub(crate) fn library(which: Library) -> (r: StdLib) {
    match which {
        Library::Table => StdLib::TABLE,
        Library::Text => StdLib::STRING,
        Library::Math => StdLib::MATH,
        Library::Utf8 => StdLib::UTF8,
    }
}

/// `BitOr` of `mlua::StdLib`: what is in one set or the other. Nothing is claimed of the set.
#[verifier::external_body]
pub(crate) fn with_libraries(a: StdLib, b: StdLib) -> (r: StdLib) {
    a | b
}

/// `Lua::new_with`: a new state that has only the given libraries. Nothing is claimed of it.
#[verifier::external_body]
pub(crate) fn new_state(libraries: StdLib) -> (r: Result<Lua, LuaError>) {
    Lua::new_with(libraries, mlua::LuaOptions::default())
}

/// `Lua::globals`: the global table of a state. Nothing is claimed of it.
#[verifier::external_body]
pub(crate) fn globals(lua: &Lua) -> (r: HeldTable) {
    HeldTable { lua: lua.clone(), table: lua.globals() }
}

/// `Table::set` with `nil`. Nothing is claimed of it: a metamethod may answer.
#[verifier::external_body]
pub(crate) fn forget(now: Lua, t: &HeldTable, key: &str) -> (r: Result<Lua, LuaError>) {
    t.table.set(key, LuaValue::Nil)?;
    Ok(now)
}

/// `Chunk::exec` on the text of a script. It hands on a handle of the state, as the script left it.
/// Nothing is claimed of it: what the script does to the state is its own affair, and a script that
/// does not end keeps the call from returning.
#[verifier::external_body]
pub(crate) fn execute(lua: &Lua, code: &str) -> (r: Result<Lua, LuaError>) {
    lua.load(code).exec()?;
    Ok(lua.clone())
}

// ---------------------------------------------------------------------------
// Tables
// ---------------------------------------------------------------------------

/// `Table::get` for a text. Nothing is claimed of it: a metamethod may answer.
#[verifier::external_body]
pub(crate) fn text_at(now: Lua, t: &HeldTable, key: &str) -> (r: (Result<String, LuaError>, Lua)) {
    (t.table.get::<String>(key), now)
}

/// `Table::get` for a text or nothing. Nothing is claimed of it: a metamethod may answer.
#[verifier::external_body]
pub(crate) fn optional_text_at(now: Lua, t: &HeldTable, key: &str) -> (r: (
    Result<Option<String>, LuaError>,
    Lua,
)) {
    (t.table.get::<Option<String>>(key), now)
}

/// `Table::get` for a list of texts or nothing. Nothing is claimed of it: a metamethod may answer.
#[verifier::external_body]
pub(crate) fn optional_texts_at(now: Lua, t: &HeldTable, key: &str) -> (r: (
    Result<Option<Vec<String>>, LuaError>,
    Lua,
)) {
    (t.table.get::<Option<Vec<String>>>(key), now)
}

/// `Table::get` for a table or nothing. Nothing is claimed of it: a metamethod may answer.
#[verifier::external_body]
pub(crate) fn optional_table_at(now: Lua, t: &HeldTable, key: &str) -> (r: (
    Result<Option<HeldTable>, LuaError>,
    Lua,
)) {
    let found = t.table.get::<Option<LuaTable>>(key);
    (found.map(|o| o.map(|table| HeldTable { lua: t.lua.clone(), table })), now)
}

/// `Table::get` for any value. Nothing is claimed of it: a metamethod may answer.
#[verifier::external_body]
pub(crate) fn value_at(now: Lua, t: &HeldTable, key: &str) -> (r: (
    Result<HeldValue, LuaError>,
    Lua,
)) {
    let found = t.table.get::<LuaValue>(key);
    (found.map(|value| HeldValue { lua: t.lua.clone(), value }), now)
}

/// `Table::sequence_values`, for any values: a walk that has not begun. Nothing is claimed of it.
#[verifier::external_body]
pub(crate) fn values_in(t: &HeldTable) -> (r: HeldWalk<'_>) {
    HeldWalk { lua: t.lua.clone(), walk: t.table.sequence_values::<LuaValue>() }
}

/// `TableSequence::next`: the value that a walk comes to, and the walk behind it. Nothing is claimed
/// of it.
#[verifier::external_body]
pub(crate) fn next_value<'a>(now: Lua, walk: HeldWalk<'a>) -> (r: (
    Option<(Result<HeldValue, LuaError>, HeldWalk<'a>)>,
    Lua,
)) {
    let HeldWalk { lua, mut walk } = walk;
    match walk.next() {
        Some(found) => {
            let held = found.map(|value| HeldValue { lua: lua.clone(), value });
            (Some((held, HeldWalk { lua, walk })), now)
        },
        None => (None, now),
    }
}

/// `Table::sequence_values`, for texts, to its end: no part of the script runs meanwhile. Nothing
/// is claimed of it.
#[verifier::external_body]
pub(crate) fn texts_in(now: Lua, t: &HeldTable) -> (r: (Vec<Result<String, LuaError>>, Lua)) {
    (t.table.sequence_values::<String>().collect(), now)
}

/// `Table::pairs`, for texts and any values: a walk that has not begun. Nothing is claimed of it.
#[verifier::external_body]
pub(crate) fn pairs_in(t: &HeldTable) -> (r: HeldPairs<'_>) {
    HeldPairs { lua: t.lua.clone(), walk: t.table.pairs::<String, LuaValue>() }
}

/// `TablePairs::next`: the pair that a walk comes to, and the walk behind it. Nothing is claimed of
/// it, nor of the order.
#[verifier::external_body]
pub(crate) fn next_pair<'a>(now: Lua, walk: HeldPairs<'a>) -> (r: (
    Option<(Result<(String, HeldValue), LuaError>, HeldPairs<'a>)>,
    Lua,
)) {
    let HeldPairs { lua, mut walk } = walk;
    match walk.next() {
        Some(found) => {
            let held = found.map(|(k, value)| (k, HeldValue { lua: lua.clone(), value }));
            (Some((held, HeldPairs { lua, walk })), now)
        },
        None => (None, now),
    }
}

// ---------------------------------------------------------------------------
// Functions and values
// ---------------------------------------------------------------------------

/// `Function::call` with a text, for a table. Nothing is claimed of it: the function is part of
/// the script.
#[verifier::external_body]
pub(crate) fn call_with_text(now: Lua, f: &HeldFunction, argument: &str) -> (r: (
    Result<HeldTable, LuaError>,
    Lua,
)) {
    let given = f.function.call::<LuaTable>(argument);
    (given.map(|table| HeldTable { lua: f.lua.clone(), table }), now)
}

/// `Function::call` with a new empty table, for a table. Nothing is claimed of it: the function is
/// part of the script.
#[verifier::external_body]
pub(crate) fn call_with_table(now: Lua, f: &HeldFunction) -> (r: (
    Result<HeldTable, LuaError>,
    Lua,
)) {
    match f.lua.create_table() {
        Ok(argument) => {
            let given = f.function.call::<LuaTable>(argument);
            (given.map(|table| HeldTable { lua: f.lua.clone(), table }), now)
        },
        Err(e) => (Err(e), now),
    }
}

/// Tells the variants of `mlua::Value` apart. Nothing is claimed of the result, since nothing is
/// known of the value.
#[verifier::external_body]
pub(crate) fn classify(value: HeldValue) -> (r: Found) {
    let lua = value.lua;
    match value.value {
        LuaValue::Nil => Found::Nil,
        LuaValue::Boolean(b) => Found::Boolean(b),
        LuaValue::LightUserData(_) => Found::LightUserData,
        LuaValue::Integer(i) => Found::Integer(i),
        LuaValue::Number(n) => Found::Number(LuaValue::Number(n)),
        LuaValue::String(text) => Found::Text(HeldString { lua, text }),
        LuaValue::Table(table) => Found::List(HeldTable { lua, table }),
        LuaValue::Function(function) => Found::Function(HeldFunction { lua, function }),
        LuaValue::Thread(_) => Found::Thread,
        LuaValue::UserData(_) => Found::UserData,
        LuaValue::Error(_) => Found::Error,
        LuaValue::Other(_) => Found::Other,
    }
}

/// `LuaString::to_str`. Nothing is claimed of it, since nothing is known of the string.
#[verifier::external_body]
pub(crate) fn text_in(s: &HeldString) -> (r: Result<String, LuaError>) {
    s.text.to_str().map(|t| t.to_owned())
}

/// The text that `toml` writes for a number that is not whole. Nothing is claimed of it, since
/// nothing is known of the number.
#[verifier::external_body]
pub(crate) fn number_text(value: &LuaValue) -> (r: String) {
    toml::Value::Float(value.as_number().unwrap_or_default()).to_string()
}

/// The text of an `mlua::Error`. Nothing is claimed of it, since nothing is known of the error.
#[verifier::external_body]
pub(crate) fn said(e: LuaError) -> (r: String) {
    e.to_string()
}

} // verus!
