//! The script evaluator session.  The engine treats the evaluator as an
//! opaque capability: set a global, read a global back, compile a chunk,
//! run a compiled chunk.  Each call is recorded in a ghost history of
//! events, so that the traversal engines' contracts can state the exact
//! protocol they drive and relate their output to the values the evaluator
//! returned.

use vstd::prelude::*;
use crate::text::views;
use crate::value::{Scalar, Computed, SRes};
use crate::hostfns::{scalar_log_text, compose_log_line, coalesce_pick};

verus! {

#[verifier::external_type_specification]
#[verifier::external_body]
pub struct ExLua(mlua::Lua);

#[verifier::external_type_specification]
#[verifier::external_body]
pub struct ExLuaValue(mlua::Value);

/// One recorded interaction with the evaluator.
pub enum Event {
    /// A text value was bound to a global variable.
    PutStr { name: Seq<u8>, value: Seq<u8> },
    /// An integer value was bound to a global variable.
    PutInt { name: Seq<u8>, value: i64 },
    /// The row-as-table global was rebuilt from a record's fields, with
    /// name-keyed entries for the given header names.
    PutRow { fields: Seq<Seq<u8>>, names: Seq<Seq<u8>> },
    /// A global variable was read back as an integer.
    GotInt { name: Seq<u8>, value: i64 },
    /// The BEGIN chunk was executed.
    RanBegin { outcome: Result<(), Seq<u8>> },
    /// One MAIN evaluation was attempted for a row.
    RanMain { outcome: Result<SRes, Seq<u8>> },
    /// The END chunk was evaluated.
    RanEnd { outcome: Result<SRes, Seq<u8>> },
}

/// One evaluator instance together with the ghost history of every
/// interaction the engine had with it.
///
/// The history is ghost state of the library's own: each trusted wrapper
/// below appends the one event naming the call its body makes, and
/// `note_failed_main` appends, from verified code, the one synthetic MAIN
/// attempt the engine accounts when the MAIN source never compiled.  The
/// protocol contracts stated over the history thus describe what this
/// crate's own functions drive; being a public ghost field, the history is
/// a discipline kept by this crate, not a fence Verus could hold against
/// an arbitrary verified writer.
pub struct Session {
    pub lua: mlua::Lua,
    pub history: Ghost<Seq<Event>>,
}

/// Relies on mlua's `Lua::new`: a fresh evaluator state.  A buffer for the
/// log helper's composed lines is attached as app data.
#[verifier::external_body]
fn lua_new() -> mlua::Lua {
    let lua = mlua::Lua::new();
    lua.set_app_data::<Vec<Vec<u8>>>(Vec::new());
    lua
}

/// A fresh session with an empty interaction history.
pub fn new_session() -> (s: Session)
    ensures
        s.history@ == Seq::<Event>::empty(),
{
    Session { lua: lua_new(), history: Ghost(Seq::empty()) }
}

/// Relies on mlua's `Value`: converts one evaluator value to a `Scalar`,
/// rendering a float by `ryu` (shortest round-trippable form) and by its
/// plain display form.  `nonzero` is the filter rule's one float
/// comparison, magnitude above machine epsilon (2^-52); it is decided on
/// the value's IEEE bits, where magnitude order is bit order, because the
/// library itself holds no floats: the mask keeps the magnitude bits,
/// 0x3cb0_... are the epsilon's bits, and anything above the infinity bits
/// 0x7ff0_... is a NaN, which never passes the comparison.  Values of any
/// other kind carry their printed description.
#[verifier::external_body]
fn scalar_of(v: &mlua::Value) -> Scalar {
    match v {
        mlua::Value::Nil => Scalar::Nil,
        mlua::Value::Boolean(b) => Scalar::Bool(*b),
        mlua::Value::Integer(i) => Scalar::Int(*i),
        mlua::Value::Number(n) => {
            let mut buf = ryu::Buffer::new();
            let mag = n.to_bits() & 0x7fff_ffff_ffff_ffff;
            let nonzero = mag > 0x3cb0_0000_0000_0000 && mag <= 0x7ff0_0000_0000_0000;
            Scalar::Num { text: buf.format(*n).as_bytes().to_vec(), shown: format!("{}", n).into_bytes(), nonzero }
        },
        mlua::Value::String(st) => Scalar::Str(st.to_string_lossy().into_bytes()),
        other => Scalar::Other(format!("{:?}", other).into_bytes()),
    }
}

/// Relies on mlua's `Table::pairs`: converts one evaluator value to a
/// `Computed`, a table becoming the sequence of its entries' values in
/// encounter order.  Iterating a plain table cannot fail (every entry
/// converts to a `Value`), so the flattening drops nothing.
#[verifier::external_body]
fn computed_of(v: mlua::Value) -> Computed {
    if let mlua::Value::Table(t) = v {
        let mut vals: Vec<Scalar> = Vec::new();
        for (_k, entry) in t.pairs::<mlua::Value, mlua::Value>().flatten() {
            vals.push(scalar_of(&entry));
        }
        Computed::Composite(vals)
    } else {
        Computed::Scalar(scalar_of(&v))
    }
}

/// What the compiler makes of a source text: its bytecode, or the message
/// it rejects the text with.  The compiler settings are fixed below, so
/// the result is a function of the source alone — which is what lets a
/// repeated run, or an embedded block against an equivalent explicit
/// script, reach the very same compiled phases.
pub uninterp spec fn compiled_of(source: Seq<u8>) -> Result<Seq<u8>, Seq<u8>>;

/// Relies on mlua's `Compiler::compile`: compiles a source text to
/// bytecode once, so that the MAIN chunk is never recompiled per row.
/// With the settings fixed, the luau compiler is a pure function of the
/// source text, named by `compiled_of`.
#[verifier::external_body]
pub fn compile_chunk(source: &Vec<u8>) -> (r: Result<Vec<u8>, Vec<u8>>)
    ensures
        (match r {
            Ok(bc) => compiled_of(source@) == Ok::<Seq<u8>, Seq<u8>>(bc@),
            Err(e) => compiled_of(source@) == Err::<Seq<u8>, Seq<u8>>(e@),
        }),
{
    let compiler = mlua::chunk::Compiler::new().set_optimization_level(2).set_debug_level(1);
    compiler.compile(source).map_err(|e| e.to_string().into_bytes())
}

/// Relies on mlua's `Table::set` on the globals table: binds an integer to
/// a named global.
#[verifier::external_body]
pub fn set_global_int(s: &mut Session, name: &Vec<u8>, value: i64) -> (r: Result<(), Vec<u8>>)
    ensures
        r is Ok ==> final(s).history@ == old(s).history@.push(
            Event::PutInt { name: name@, value },
        ),
        r is Err ==> final(s).history@ == old(s).history@,
{
    let inner = || -> mlua::Result<()> { s.lua.globals().set(s.lua.create_string(name)?, value) };
    inner().map_err(|e| e.to_string().into_bytes())
}

/// Relies on mlua's `Table::set` on the globals table: binds a text to a
/// named global.
#[verifier::external_body]
pub fn set_global_str(s: &mut Session, name: &Vec<u8>, value: &Vec<u8>) -> (r: Result<(), Vec<u8>>)
    ensures
        r is Ok ==> final(s).history@ == old(s).history@.push(
            Event::PutStr { name: name@, value: value@ },
        ),
        r is Err ==> final(s).history@ == old(s).history@,
{
    let inner = || -> mlua::Result<()> {
        s.lua.globals().set(s.lua.create_string(name)?, s.lua.create_string(value)?)
    };
    inner().map_err(|e| e.to_string().into_bytes())
}

/// Relies on mlua's `Lua::create_table` and `Table::set`: rebuilds the
/// `col` global from a record, with 1-based positional entries for every
/// field and name-keyed entries pairing header names with fields.
#[verifier::external_body]
pub fn set_row_table(s: &mut Session, fields: &Vec<Vec<u8>>, names: &Vec<Vec<u8>>) -> (r: Result<
    (),
    Vec<u8>,
>)
    ensures
        r is Ok ==> final(s).history@ == old(s).history@.push(
            Event::PutRow { fields: views(fields@), names: views(names@) },
        ),
        r is Err ==> final(s).history@ == old(s).history@,
{
    let inner = || -> mlua::Result<()> {
        let t = s.lua.create_table()?;
        for (i, f) in fields.iter().enumerate() {
            t.set(i + 1, s.lua.create_string(f)?)?;
        }
        for (n, f) in names.iter().zip(fields.iter()) {
            t.set(s.lua.create_string(n)?, s.lua.create_string(f)?)?;
        }
        s.lua.globals().set("col", t)
    };
    inner().map_err(|e| e.to_string().into_bytes())
}

/// Relies on mlua's `Table::get` on the globals table: reads a global back
/// as an integer, `0` when it is absent or not convertible.
#[verifier::external_body]
pub fn read_global_int(s: &mut Session, name: &Vec<u8>) -> (r: i64)
    ensures
        final(s).history@ == old(s).history@.push(Event::GotInt { name: name@, value: r }),
{
    let inner = || -> mlua::Result<i64> { s.lua.globals().get::<i64>(s.lua.create_string(name)?) };
    inner().unwrap_or_default()
}

/// Relies on mlua's `Chunk::exec`: runs the compiled BEGIN chunk once.
#[verifier::external_body]
pub fn run_begin_chunk(s: &mut Session, bytecode: &Vec<u8>) -> (r: Result<(), Vec<u8>>)
    ensures
        r matches Ok(u) ==> final(s).history@ == old(s).history@.push(
            Event::RanBegin { outcome: Ok(()) },
        ),
        r matches Err(e) ==> final(s).history@ == old(s).history@.push(
            Event::RanBegin { outcome: Err(e@) },
        ),
{
    let chunk = s.lua.load(&bytecode[..]).set_mode(mlua::chunk::ChunkMode::Binary);
    chunk.exec().map_err(|e| e.to_string().into_bytes())
}

/// Relies on mlua's `Chunk::eval`: runs the compiled MAIN chunk for one
/// row and converts what it returns.
#[verifier::external_body]
pub fn run_main_chunk(s: &mut Session, bytecode: &Vec<u8>) -> (r: Result<Computed, Vec<u8>>)
    ensures
        r matches Ok(c) ==> final(s).history@ == old(s).history@.push(
            Event::RanMain { outcome: Ok(c@) },
        ),
        r matches Err(e) ==> final(s).history@ == old(s).history@.push(
            Event::RanMain { outcome: Err(e@) },
        ),
{
    let chunk = s.lua.load(&bytecode[..]).set_mode(mlua::chunk::ChunkMode::Binary);
    match chunk.eval::<mlua::Value>() {
        Ok(v) => Ok(computed_of(v)),
        Err(e) => Err(e.to_string().into_bytes()),
    }
}

/// Records a MAIN attempt that failed before reaching the evaluator, as
/// when the MAIN source itself did not compile: every row then counts one
/// failure carrying the compiler's message.
pub fn note_failed_main(s: &mut Session, msg: &Vec<u8>)
    ensures
        final(s).history@ == old(s).history@.push(Event::RanMain { outcome: Err(msg@) }),
{
    proof {
        s.history@ = s.history@.push(Event::RanMain { outcome: Err(msg@) });
    }
}

/// Relies on mlua's `Chunk::eval`: runs the compiled END chunk once and
/// converts what it returns.
#[verifier::external_body]
pub fn run_end_chunk(s: &mut Session, bytecode: &Vec<u8>) -> (r: Result<Computed, Vec<u8>>)
    ensures
        r matches Ok(c) ==> final(s).history@ == old(s).history@.push(
            Event::RanEnd { outcome: Ok(c@) },
        ),
        r matches Err(e) ==> final(s).history@ == old(s).history@.push(
            Event::RanEnd { outcome: Err(e@) },
        ),
{
    let chunk = s.lua.load(&bytecode[..]).set_mode(mlua::chunk::ChunkMode::Binary);
    match chunk.eval::<mlua::Value>() {
        Ok(v) => Ok(computed_of(v)),
        Err(e) => Err(e.to_string().into_bytes()),
    }
}

/// Relies on mlua's `Lua::create_function`: exposes `qsv_log` to scripts.
/// The closure converts the call's arguments and hands them to the
/// verified line composer; composed lines collect in the session and are
/// handed out by `take_log_lines`.
#[verifier::external_body]
pub fn install_log_helper(s: &mut Session) -> (r: Result<(), Vec<u8>>)
    ensures
        final(s).history@ == old(s).history@,
{
    let inner = || -> mlua::Result<()> {
        let f = s.lua.create_function(|lua, args: mlua::MultiValue| {
            let vals: Vec<Scalar> = args.iter().map(scalar_of).collect();
            let level = vals.first().map(scalar_log_text).unwrap_or_default();
            let parts: Vec<Vec<u8>> = vals.iter().skip(1).map(scalar_log_text).collect();
            let line = compose_log_line(&level, &parts);
            if let Some(mut buf) = lua.app_data_mut::<Vec<Vec<u8>>>() {
                buf.push(line);
            }
            Ok(())
        })?;
        s.lua.globals().set("qsv_log", f)
    };
    inner().map_err(|e| e.to_string().into_bytes())
}

/// Relies on mlua's `Lua::create_function`: exposes `qsv_coalesce` to
/// scripts.  The closure converts the call's arguments and returns what
/// the verified picker chooses.
#[verifier::external_body]
pub fn install_coalesce_helper(s: &mut Session) -> (r: Result<(), Vec<u8>>)
    ensures
        final(s).history@ == old(s).history@,
{
    let inner = || -> mlua::Result<()> {
        let f = s.lua.create_function(|lua, args: mlua::MultiValue| {
            let vals: Vec<Scalar> = args.iter().map(scalar_of).collect();
            let picked = coalesce_pick(&vals);
            lua.create_string(&picked)
        })?;
        s.lua.globals().set("qsv_coalesce", f)
    };
    inner().map_err(|e| e.to_string().into_bytes())
}

/// Relies on the session's app data: hands out the log lines composed so
/// far and clears the buffer.
#[verifier::external_body]
pub fn take_log_lines(s: &Session) -> (r: Vec<Vec<u8>>) {
    match s.lua.app_data_mut::<Vec<Vec<u8>>>() {
        Some(mut buf) => std::mem::take(&mut *buf),
        None => Vec::new(),
    }
}

} // verus!
