//! The calls into the Lua virtual machine.
//!
//! What a script does is its own affair, so nothing is claimed of what it returns. A table that
//! the manager builds is another matter: it has no metatable and nobody else holds it, so what
//! is put into it is what it holds.

use crate::float::F64;
use vstd::prelude::*;

verus! {

#[verifier::external_type_specification]
#[verifier::external_body]
pub struct ExLua(mlua::Lua);

#[verifier::external_type_specification]
#[verifier::external_body]
pub struct ExTable(mlua::Table);

#[verifier::external_type_specification]
#[verifier::external_body]
pub struct ExError(mlua::Error);

/// A value under a name of a table.
pub ghost enum Field {
    Boolean(bool),
    Integer(i64),
    Number(F64),
    Text(Seq<char>),
    Table(Map<Seq<char>, Field>),
}

pub open spec fn no_fields() -> Map<Seq<char>, Field> {
    Map::empty()
}

/// A table that was created here, that nobody else holds and that no other table holds: what is in
/// it is what was put in through its one handle.
pub uninterp spec fn held_once(table: mlua::Table) -> bool;

/// What a table that is held once holds under names.
pub uninterp spec fn fields(table: mlua::Table) -> Map<Seq<char>, Field>;

/// Which virtual machine a handle of it stands for.
pub uninterp spec fn machine(lua: mlua::Lua) -> int;

/// Which virtual machine a table lives in.
pub uninterp spec fn home(table: mlua::Table) -> int;

/// A standard library that a machine may have beside the basic functions.
pub enum Library {
    Tables,
    Strings,
    Maths,
    Files,
}

/// The standard libraries that were loaded into a machine through [`load_library`].
pub uninterp spec fn libraries(lua: mlua::Lua) -> Set<Library>;

/// How many bytes a machine may take, where that was limited through [`limit_memory`].
pub uninterp spec fn memory_limit(lua: mlua::Lua) -> Option<nat>;

/// The texts that were run in a machine through [`run_chunk`], each with its chunk name, in order.
pub uninterp spec fn texts_run(lua: mlua::Lua) -> Seq<(Seq<char>, Seq<char>)>;

/// The global functions that were called in a machine through [`call_global`], each with the fields
/// of the table that it was called with, in order.
pub uninterp spec fn calls_made(lua: mlua::Lua) -> Seq<(Seq<char>, Map<Seq<char>, Field>)>;

/// Whether a machine is what it was, but for one call more.
pub open spec fn called_once(
    before: mlua::Lua,
    after: mlua::Lua,
    function: Seq<char>,
    argument: Map<Seq<char>, Field>,
) -> bool {
    &&& calls_made(after) == calls_made(before).push((function, argument))
    &&& machine(after) == machine(before)
    &&& texts_run(after) == texts_run(before)
    &&& libraries(after) == libraries(before)
    &&& memory_limit(after) == memory_limit(before)
}

/// Whether a machine can fail to start so.
pub uninterp spec fn may_fail_to_start(error: mlua::Error) -> bool;

/// Whether a library can fail to load so.
pub uninterp spec fn may_fail_to_load(library: Library, error: mlua::Error) -> bool;

/// Whether a machine's memory can fail to be limited so.
pub uninterp spec fn may_fail_to_limit(bytes: nat, error: mlua::Error) -> bool;

/// Whether a table can fail to be created so.
pub uninterp spec fn may_fail_to_create(error: mlua::Error) -> bool;

/// Whether a value can fail to be put under a name so.
pub uninterp spec fn may_fail_to_put(name: Seq<char>, error: mlua::Error) -> bool;

/// `mlua::Lua::new_with` of no library: a new machine with the basic functions alone and no limit
/// of memory.
#[verifier::external_body]
pub(crate) fn bare_machine() -> (r: Result<mlua::Lua, mlua::Error>)
    ensures
        r is Ok ==> libraries(r->Ok_0) == Set::<Library>::empty(),
        r is Ok ==> memory_limit(r->Ok_0) is None,
        r is Ok ==> texts_run(r->Ok_0).len() == 0,
        r is Ok ==> calls_made(r->Ok_0).len() == 0,
        r is Err ==> may_fail_to_start(r->Err_0),
{
    mlua::Lua::new_with(mlua::StdLib::NONE, mlua::LuaOptions::default())
}

/// `mlua::Lua::load_std_libs` of one library: the machine then has it too, and is otherwise as
/// before.
#[verifier::external_body]
pub(crate) fn load_library(lua: &mut mlua::Lua, library: Library) -> (r: Result<(), mlua::Error>)
    ensures
        r is Ok ==> libraries(*final(lua)) == libraries(*old(lua)).insert(library),
        r is Err ==> may_fail_to_load(library, r->Err_0),
        memory_limit(*final(lua)) == memory_limit(*old(lua)),
        machine(*final(lua)) == machine(*old(lua)),
        texts_run(*final(lua)) == texts_run(*old(lua)),
        calls_made(*final(lua)) == calls_made(*old(lua)),
{
    lua.load_std_libs(
        match library {
            Library::Tables => mlua::StdLib::TABLE,
            Library::Strings => mlua::StdLib::STRING,
            Library::Maths => mlua::StdLib::MATH,
            Library::Files => mlua::StdLib::IO,
        },
    )
}

/// `mlua::Lua::set_memory_limit`: the machine then takes no more than this many bytes, unless its
/// allocator cannot be limited, and is otherwise as before. A limit of zero, and one past the
/// signed numbers, would be none.
#[verifier::external_body]
pub(crate) fn limit_memory(lua: &mut mlua::Lua, bytes: usize) -> (r: Result<usize, mlua::Error>)
    requires
        0 < bytes <= isize::MAX,
    ensures
        libraries(*final(lua)) == libraries(*old(lua)),
        machine(*final(lua)) == machine(*old(lua)),
        texts_run(*final(lua)) == texts_run(*old(lua)),
        calls_made(*final(lua)) == calls_made(*old(lua)),
        r is Err ==> may_fail_to_limit(bytes as nat, r->Err_0),
        memory_limit(*final(lua)) == if r is Ok {
            Some(bytes as nat)
        } else {
            memory_limit(*old(lua))
        },
{
    lua.set_memory_limit(bytes)
}

/// How an unsigned number arrives in Lua: as an integer where one holds it, else as the nearest
/// float.
pub open spec fn unsigned_field(n: u64) -> Field {
    if n <= i64::MAX {
        Field::Integer(n as i64)
    } else {
        Field::Number(F64::from_whole(n))
    }
}

/// `mlua::Lua::create_table`: a new table of this machine, empty and in no other hands. It fails where the machine is
/// out of memory.
#[verifier::external_body]
pub(crate) fn create_table(lua: &mlua::Lua) -> (r: Result<mlua::Table, mlua::Error>)
    ensures
        r is Ok ==> home(r->Ok_0) == machine(*lua),
        r is Ok ==> held_once(r->Ok_0),
        r is Ok ==> fields(r->Ok_0) == no_fields(),
        r is Err ==> may_fail_to_create(r->Err_0),
{
    lua.create_table()
}

/// `mlua::Table::raw_set` of a boolean: the table then holds it under the name, and is otherwise
/// as before. The machine is handed along because it must outlive the table.
#[verifier::external_body]
pub(crate) fn put_boolean(
    lua: &mlua::Lua,
    table: &mut mlua::Table,
    name: &str,
    value: bool,
) -> (r: Result<(), mlua::Error>)
    requires
        home(*old(table)) == machine(*lua),
        held_once(*old(table)),
    ensures
        home(*final(table)) == home(*old(table)),
        held_once(*final(table)),
        r is Err ==> may_fail_to_put(name@, r->Err_0),
        r is Ok ==> fields(*final(table)) == fields(*old(table)).insert(
            name@,
            Field::Boolean(value),
        ),
{
    let _ = lua;
    table.raw_set(name, value)
}

/// `mlua::Table::raw_set` of an unsigned number, which the crate passes on as an integer where
/// one holds it and else as a float.
#[verifier::external_body]
pub(crate) fn put_unsigned(
    lua: &mlua::Lua,
    table: &mut mlua::Table,
    name: &str,
    value: u64,
) -> (r: Result<(), mlua::Error>)
    requires
        home(*old(table)) == machine(*lua),
        held_once(*old(table)),
    ensures
        home(*final(table)) == home(*old(table)),
        held_once(*final(table)),
        r is Err ==> may_fail_to_put(name@, r->Err_0),
        r is Ok ==> fields(*final(table)) == fields(*old(table)).insert(
            name@,
            unsigned_field(value),
        ),
{
    let _ = lua;
    table.raw_set(name, value)
}

/// `mlua::Table::raw_set` of a float, handed over by its bits.
#[verifier::external_body]
pub(crate) fn put_number(
    lua: &mlua::Lua,
    table: &mut mlua::Table,
    name: &str,
    value: F64,
) -> (r: Result<(), mlua::Error>)
    requires
        home(*old(table)) == machine(*lua),
        held_once(*old(table)),
    ensures
        home(*final(table)) == home(*old(table)),
        held_once(*final(table)),
        r is Err ==> may_fail_to_put(name@, r->Err_0),
        r is Ok ==> fields(*final(table)) == fields(*old(table)).insert(
            name@,
            Field::Number(value),
        ),
{
    let _ = lua;
    table.raw_set(name, mlua::Number::from_bits(value.bits))
}

/// `mlua::Table::raw_set` of a string.
#[verifier::external_body]
pub(crate) fn put_text(
    lua: &mlua::Lua,
    table: &mut mlua::Table,
    name: &str,
    value: &str,
) -> (r: Result<(), mlua::Error>)
    requires
        home(*old(table)) == machine(*lua),
        held_once(*old(table)),
    ensures
        home(*final(table)) == home(*old(table)),
        held_once(*final(table)),
        r is Err ==> may_fail_to_put(name@, r->Err_0),
        r is Ok ==> fields(*final(table)) == fields(*old(table)).insert(
            name@,
            Field::Text(value@),
        ),
{
    let _ = lua;
    table.raw_set(name, value)
}

/// `mlua::Table::raw_set` of a table, which is given away and so stays as it is.
#[verifier::external_body]
pub(crate) fn put_table(
    lua: &mlua::Lua,
    table: &mut mlua::Table,
    name: &str,
    value: mlua::Table,
) -> (r: Result<(), mlua::Error>)
    requires
        home(*old(table)) == machine(*lua),
        held_once(*old(table)),
        home(value) == machine(*lua),
        held_once(value),
    ensures
        home(*final(table)) == home(*old(table)),
        held_once(*final(table)),
        r is Err ==> may_fail_to_put(name@, r->Err_0),
        r is Ok ==> fields(*final(table)) == fields(*old(table)).insert(
            name@,
            Field::Table(fields(value)),
        ),
{
    let _ = lua;
    table.raw_set(name, value)
}

/// What a call of a script returned.
pub enum Answer {
    Nil,
    Table(mlua::Table),
    /// Any other value.
    Other,
}

/// Whether running a text under a chunk name in a machine can end so.
pub uninterp spec fn may_run(
    machine: int,
    source: Seq<char>,
    name: Seq<char>,
    reply: Result<(), mlua::Error>,
) -> bool;

/// Whether asking if a global is a function can end so, in a machine after these texts were run.
pub uninterp spec fn may_be_function(
    machine: int,
    texts: Seq<(Seq<char>, Seq<char>)>,
    name: Seq<char>,
    reply: Result<bool, mlua::Error>,
) -> bool;

/// Whether getting a global table can end so, in a machine after these texts were run.
pub uninterp spec fn may_be_table(
    machine: int,
    texts: Seq<(Seq<char>, Seq<char>)>,
    name: Seq<char>,
    reply: Result<mlua::Table, mlua::Error>,
) -> bool;

/// Whether calling a global function with a table that holds these fields can end so, in a machine
/// after these texts were run.
pub uninterp spec fn may_answer(
    machine: int,
    texts: Seq<(Seq<char>, Seq<char>)>,
    function: Seq<char>,
    argument: Map<Seq<char>, Field>,
    reply: Result<Answer, mlua::Error>,
) -> bool;

/// Whether asking a table for a key can end so.
pub uninterp spec fn may_contain(
    table: mlua::Table,
    name: Seq<char>,
    reply: Result<bool, mlua::Error>,
) -> bool;

/// Whether getting a string of a table can end so.
pub uninterp spec fn may_give_text(
    table: mlua::Table,
    name: Seq<char>,
    reply: Result<String, mlua::Error>,
) -> bool;

/// Whether getting a float of a table can end so.
pub uninterp spec fn may_give_number(
    table: mlua::Table,
    name: Seq<char>,
    reply: Result<F64, mlua::Error>,
) -> bool;

/// Whether getting a table at an index of a table can end so; nothing stands for a missing entry.
pub uninterp spec fn may_hold_at(
    table: mlua::Table,
    index: nat,
    reply: Option<Result<mlua::Table, mlua::Error>>,
) -> bool;

/// `mlua::Chunk::exec` of a text under a chunk name, made by `mlua::Lua::load`. Whether the text
/// is a program and what it does is up to the text; the contract fixes what is run where, and that
/// no library is loaded, no limit set and no function called through this module meanwhile. It
/// does not return for a text that never ends.
#[verifier::external_body]
pub(crate) fn run_chunk(lua: &mut mlua::Lua, source: &str, name: &str) -> (r: Result<
    (),
    mlua::Error,
>)
    ensures
        may_run(machine(*old(lua)), source@, name@, r),
        machine(*final(lua)) == machine(*old(lua)),
        texts_run(*final(lua)) == texts_run(*old(lua)).push((source@, name@)),
        calls_made(*final(lua)) == calls_made(*old(lua)),
        libraries(*final(lua)) == libraries(*old(lua)),
        memory_limit(*final(lua)) == memory_limit(*old(lua)),
{
    lua.load(source).set_name(name).exec()
}

/// `mlua::Value::is_function` of a global that `mlua::Table::get` finds. The script decides what
/// its globals are; the contract only fixes which one is looked at.
#[verifier::external_body]
pub(crate) fn global_is_function(lua: &mlua::Lua, name: &str) -> (r: Result<bool, mlua::Error>)
    ensures
        may_be_function(machine(*lua), texts_run(*lua), name@, r),
{
    let value: mlua::Value = lua.globals().get(name)?;
    Ok(value.is_function())
}

/// `mlua::Table::get` of a global table. The script decides whether there is one; where there is,
/// it lives in this machine.
#[verifier::external_body]
pub(crate) fn global_table(lua: &mlua::Lua, name: &str) -> (r: Result<mlua::Table, mlua::Error>)
    ensures
        may_be_table(machine(*lua), texts_run(*lua), name@, r),
        r is Ok ==> home(r->Ok_0) == machine(*lua),
{
    lua.globals().get(name)
}

/// `mlua::Function::call` of a global function with one table. The script decides what comes
/// back; the contract fixes what is called with what, and that a table that comes back lives in
/// this machine. It counts as a call also where there is no such function. It does not return for
/// a function that never ends, and a function registered in the machine that panics makes it panic.
#[verifier::external_body]
pub(crate) fn call_global(lua: &mut mlua::Lua, name: &str, argument: mlua::Table) -> (r: Result<
    Answer,
    mlua::Error,
>)
    requires
        home(argument) == machine(*old(lua)),
        held_once(argument),
    ensures
        called_once(*old(lua), *final(lua), name@, fields(argument)),
        may_answer(machine(*old(lua)), texts_run(*old(lua)), name@, fields(argument), r),
        r is Ok && r->Ok_0 is Table ==> home(r->Ok_0->Table_0) == machine(*old(lua)),
{
    let function: mlua::Function = lua.globals().get(name)?;
    match function.call::<mlua::Value>(argument)? {
        mlua::Value::Nil => Ok(Answer::Nil),
        mlua::Value::Table(table) => Ok(Answer::Table(table)),
        _ => Ok(Answer::Other),
    }
}

/// `mlua::Table::contains_key`. A metatable of the script's can decide it; the contract only
/// fixes the table and the key. The machine is handed along because it must outlive the table.
#[verifier::external_body]
pub(crate) fn has_field(lua: &mlua::Lua, table: &mlua::Table, name: &str) -> (r: Result<
    bool,
    mlua::Error,
>)
    requires
        home(*table) == machine(*lua),
    ensures
        may_contain(*table, name@, r),
{
    let _ = lua;
    table.contains_key(name)
}

/// `mlua::Table::get` of a string. A metatable of the script's can decide it; the contract only
/// fixes the table and the key.
#[verifier::external_body]
pub(crate) fn text_field(lua: &mlua::Lua, table: &mlua::Table, name: &str) -> (r: Result<
    String,
    mlua::Error,
>)
    requires
        home(*table) == machine(*lua),
    ensures
        may_give_text(*table, name@, r),
{
    let _ = lua;
    table.get(name)
}

/// `mlua::Table::get` of a float, handed back by its bits. A metatable of the script's can decide
/// it; the contract only fixes the table and the key.
#[verifier::external_body]
pub(crate) fn number_field(lua: &mlua::Lua, table: &mlua::Table, name: &str) -> (r: Result<
    F64,
    mlua::Error,
>)
    requires
        home(*table) == machine(*lua),
    ensures
        may_give_number(*table, name@, r),
{
    let _ = lua;
    let number: mlua::Number = table.get(name)?;
    Ok(F64 { bits: number.to_bits() })
}

/// `mlua::Table::raw_get` of a table at an index: nothing where the entry is missing, and an error
/// where it is no table. A table that comes back lives in this machine. What the entries are is up
/// to the script; the contract fixes the table and the index.
#[verifier::external_body]
pub(crate) fn table_entry(lua: &mlua::Lua, table: &mlua::Table, index: usize) -> (r: Option<
    Result<mlua::Table, mlua::Error>,
>)
    requires
        home(*table) == machine(*lua),
    ensures
        may_hold_at(*table, index as nat, r),
        r is Some && r->Some_0 is Ok ==> home(r->Some_0->Ok_0) == machine(*lua),
{
    let _ = lua;
    table.raw_get::<Option<mlua::Table>>(index).transpose()
}

} // verus!
