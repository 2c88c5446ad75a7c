//! The boundary to the `mlua` interpreter.
//!
//! Every `external_body` function here is trusted: its body makes one
//! call into `mlua` (together with the conversions around it) and Verus
//! believes the stated contract without reading the body.  The contracts
//! say how each call moves the ghost model that a [`Context`] and an
//! [`NsTable`] carry (see `context`): the model records the host's side
//! of the boundary only — what script code does to its own globals is
//! not tracked, and what a driven chunk computed is decided by the
//! interpreter alone.

use std::io::Write;
use std::sync::mpsc::Sender;

use vstd::prelude::*;

use crate::context::{Context, NsTable};

verus! {

#[verifier::external_type_specification]
#[verifier::external_body]
pub struct ExLua(mlua::Lua);

#[verifier::external_type_specification]
#[verifier::external_body]
pub struct ExTable(mlua::Table);

#[verifier::external_type_specification]
#[verifier::external_body]
pub struct ExValue(mlua::Value);

#[verifier::external_type_specification]
#[verifier::external_body]
#[verifier::reject_recursive_types(T)]
pub struct ExVariadic<T>(mlua::Variadic<T>);

#[verifier::external_type_specification]
#[verifier::external_body]
#[verifier::reject_recursive_types(T)]
pub struct ExSender<T>(Sender<T>);

/// Relies on `std::sync::mpsc::Sender::clone`: the clone sends into the
/// same channel as the original sender.  Nothing is claimed of the
/// returned handle; every handler receives its own.
pub assume_specification<T>[ <Sender<T> as Clone>::clone ](tx: &Sender<T>) -> (r: Sender<T>);

/// Relies on `mlua::Lua::new`: creates a fresh, isolated interpreter
/// state with only the safe subset of the standard libraries loaded.
/// Globals, loaded modules and callbacks of one state are invisible to
/// another.
#[verifier::external_body]
pub(crate) fn new_lua() -> mlua::Lua {
    mlua::Lua::new()
}

/// Relies on `mlua::Lua::create_table`: allocates a fresh, empty table in
/// the given state — nothing has been set into it — or `None` when the
/// interpreter reports an error.
#[verifier::external_body]
pub(crate) fn create_table(lua: &mlua::Lua) -> Option<mlua::Table> {
    lua.create_table().ok()
}

/// Relies on `mlua::Lua::set_memory_limit`: applies `limit` bytes as a
/// hard allocation ceiling enforced by the interpreter itself; an
/// allocation beyond it fails inside the interpreter as a memory error.
/// Returns false, leaving the old ceiling, when the runtime cannot
/// enforce limits.  Installed globals and driven chunks are untouched.
#[verifier::external_body]
pub(crate) fn apply_memory_limit<H>(ctx: &mut Context<H>, limit: usize) -> (r: bool)
    ensures
        final(ctx).globals@ == old(ctx).globals@,
        final(ctx).calls@ == old(ctx).calls@,
        r ==> final(ctx).limit@ == Some(limit as nat),
        !r ==> final(ctx).limit@ == old(ctx).limit@,
{
    ctx.lua.set_memory_limit(limit).is_ok()
}

/// Relies on `mlua::Lua::create_function` and `mlua::Table::set`: wraps
/// the registered handler as a Lua-callable function and sets it into the
/// table under `name`; a later `set` under the same name overwrites the
/// earlier function.  The closure handed to the interpreter only forwards
/// the call to `handler`, giving it a clone of the message sender each
/// time.  On false the set did not take effect.
#[verifier::external_body]
pub(crate) fn install_handler<T, H>(
    ctx: &Context<H>,
    t: &mut NsTable<H>,
    name: &str,
    tx: Sender<T>,
    handler: H,
) -> (r: bool) where
    T: 'static,
    H: Fn(Sender<T>, mlua::Variadic<mlua::Value>) -> mlua::Value + Copy + 'static,

    ensures
        r ==> final(t).entries@ == old(t).entries@.push((name@, handler)),
        !r ==> final(t).entries@ == old(t).entries@,
{
    let wrapped = ctx.lua.create_function(move |_, vals: mlua::Variadic<mlua::Value>| {
        Ok(handler(tx.clone(), vals))
    });
    match wrapped {
        Ok(f) => t.table.set(name, f).is_ok(),
        Err(_) => false,
    }
}

/// Relies on `mlua::Lua::globals` and `mlua::Table::set`: publishes the
/// table as a global named `name` in the context's global environment,
/// overwriting whatever global of that name came before.  On false the
/// binding did not take effect.  The ceiling and the driven chunks are
/// untouched.
#[verifier::external_body]
pub(crate) fn set_global<H>(ctx: &mut Context<H>, name: &str, t: &NsTable<H>) -> (r: bool)
    ensures
        final(ctx).limit@ == old(ctx).limit@,
        final(ctx).calls@ == old(ctx).calls@,
        r ==> final(ctx).globals@ == old(ctx).globals@.insert(name@, t.entries@),
        !r ==> final(ctx).globals@ == old(ctx).globals@,
{
    ctx.lua.globals().set(name, t.table.clone()).is_ok()
}

/// Relies on `mlua::Lua::load`, `mlua::Chunk::set_name` and
/// `mlua::Chunk::eval`: evaluates the top-level body of `source` as a
/// chunk named `name` inside the context; returns whether evaluation
/// succeeded.  The interpreter decides the outcome; either way the chunk
/// was driven once, its verdict recorded, and the host-installed state is
/// untouched.
#[verifier::external_body]
pub(crate) fn eval_named_chunk<H>(ctx: &mut Context<H>, source: &str, name: &str) -> (r: bool)
    ensures
        final(ctx).limit@ == old(ctx).limit@,
        final(ctx).globals@ == old(ctx).globals@,
        final(ctx).calls@ == old(ctx).calls@.push((source@, r)),
{
    ctx.lua.load(source).set_name(name).eval::<()>().is_ok()
}

/// Relies on `mlua::Lua::load` and `mlua::Chunk::exec`: runs `code`
/// inside the context once.  On failure, writes the interpreter's error
/// to standard error, prefixed by `prefix`, and returns false.  A
/// Lua-level error raised by the chunk — an undefined function, a runtime
/// fault, the memory ceiling — comes back through the interpreter's
/// protected call as an error value; a Rust panic raised inside a
/// registered native handler is resumed here and propagates to the
/// caller, as the host's own code would panic.
#[verifier::external_body]
pub(crate) fn exec_logged<H>(ctx: &mut Context<H>, code: &str, prefix: &str) -> (r: bool)
    ensures
        final(ctx).limit@ == old(ctx).limit@,
        final(ctx).globals@ == old(ctx).globals@,
        final(ctx).calls@ == old(ctx).calls@.push((code@, r)),
{
    match ctx.lua.load(code).exec() {
        Ok(()) => true,
        Err(e) => {
            let _ = writeln!(std::io::stderr(), "[{}] {}", prefix, e);
            false
        },
    }
}

} // verus!
