//! The execution context: one sandboxed interpreter state per plugin,
//! carrying a ghost model of the host's actions on it.

use vstd::prelude::*;

use crate::lua_api;

verus! {

/// A sandboxed interpreter state holding one plugin's global scope,
/// together with the ghost model of what the host has done to it.  `H`
/// is the type of the registered native handlers.  The model records the
/// host's side of the boundary only: script code's own assignments to
/// globals are not tracked, and what a driven chunk computed is decided
/// by the interpreter.  The ghost fields start out empty here and are
/// moved thereafter only by the trusted boundary in `lua_api`, in step
/// with the calls it makes.
pub struct Context<H> {
    pub lua: mlua::Lua,
    /// The allocation ceiling, in bytes, that the host successfully
    /// applied; `None` while none has been.
    pub limit: Ghost<Option<nat>>,
    /// The namespaced tables the host installed as globals: namespace
    /// name to the (function name, handler) pairs set into its table,
    /// in order.
    pub globals: Ghost<Map<Seq<char>, Seq<(Seq<char>, H)>>>,
    /// The source of every chunk the host has driven in this context,
    /// in order, each with whether the interpreter reported success.
    pub calls: Ghost<Seq<(Seq<char>, bool)>>,
}

/// A table under construction, before it is exposed as a namespace
/// global: the ghost `entries` lists what was set into it, in order.
pub struct NsTable<H> {
    pub table: mlua::Table,
    pub entries: Ghost<Seq<(Seq<char>, H)>>,
}

impl<H> Context<H> {
    /// A fresh, isolated context: no limit applied, nothing installed,
    /// nothing driven.
    pub fn fresh() -> (c: Self)
        ensures
            c.limit@ == Option::<nat>::None,
            c.globals@ == Map::<Seq<char>, Seq<(Seq<char>, H)>>::empty(),
            c.calls@ == Seq::<(Seq<char>, bool)>::empty(),
    {
        Context {
            lua: lua_api::new_lua(),
            limit: Ghost(None),
            globals: Ghost(Map::empty()),
            calls: Ghost(Seq::empty()),
        }
    }
}

/// A fresh table in the context's state, with nothing set into it, or
/// `None` when the interpreter reports an error.
pub(crate) fn new_ns_table<H>(ctx: &Context<H>) -> (t: Option<NsTable<H>>)
    ensures
        t matches Some(nt) ==> nt.entries@ == Seq::<(Seq<char>, H)>::empty(),
{
    match lua_api::create_table(&ctx.lua) {
        Option::Some(table) => Option::Some(NsTable { table, entries: Ghost(Seq::empty()) }),
        Option::None => Option::None,
    }
}

} // verus!
