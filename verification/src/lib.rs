//! A plugin manager that discovers sandboxed Lua plugins on disk, gives
//! each one an isolated interpreter context with an enforced memory
//! ceiling, injects namespaced native functions into every context, and
//! drives the `init`/`update`/`destroy` lifecycle across all of them.
//!
//! The manager owns a registry of native handlers keyed by
//! `(namespace, function name)`, a memory limit applied to every context,
//! the sending half of the message channel handlers use to signal the
//! host, and the collection of loaded plugins keyed by the name of the
//! directory each was found in.  Each context carries a ghost model of
//! the host's actions on it — the limit applied, the namespaces
//! installed, the chunks driven — so installation and lifecycle
//! invocation have contracts over that model.

pub mod context;
pub mod lua_api;
pub mod message;
pub mod utils;

use std::sync::mpsc::Sender;

use vstd::prelude::*;

use crate::context::{Context, NsTable};
use crate::utils::{has_separator, id_of_path};

verus! {

/// One loaded script unit: an identifier (the name of the directory the
/// entry script was found in) and exclusive ownership of the execution
/// context the script was evaluated in.
pub struct Plugin<H> {
    pub id: String,
    pub ctx: Context<H>,
}

/// No two registered namespaces share a name.
pub open spec fn reg_wf<H>(r: Seq<(Seq<char>, Seq<(Seq<char>, H)>)>) -> bool {
    forall|i: int, j: int| 0 <= i < j < r.len() ==> r[i].0 != r[j].0
}

/// Whether the registry holds a namespace of this name.
pub open spec fn reg_has<H>(r: Seq<(Seq<char>, Seq<(Seq<char>, H)>)>, ns: Seq<char>) -> bool {
    exists|i: int| 0 <= i < r.len() && r[i].0 == ns
}

/// The position of the namespace with this name.
pub open spec fn reg_index<H>(r: Seq<(Seq<char>, Seq<(Seq<char>, H)>)>, ns: Seq<char>) -> int {
    choose|i: int| 0 <= i < r.len() && r[i].0 == ns
}

/// The ordered (function name, handler) pairs registered under a
/// namespace; empty when the namespace is absent.
pub open spec fn reg_entries<H>(r: Seq<(Seq<char>, Seq<(Seq<char>, H)>)>, ns: Seq<char>) -> Seq<
    (Seq<char>, H),
> {
    if reg_has(r, ns) {
        r[reg_index(r, ns)].1
    } else {
        Seq::empty()
    }
}

/// The registry after registering `h` under `(ns, f)`: the pair is
/// appended to the namespace's list, the namespace being created first
/// when absent.  Nothing is deduplicated.
pub open spec fn reg_register<H>(
    r: Seq<(Seq<char>, Seq<(Seq<char>, H)>)>,
    ns: Seq<char>,
    f: Seq<char>,
    h: H,
) -> Seq<(Seq<char>, Seq<(Seq<char>, H)>)> {
    if reg_has(r, ns) {
        r.update(reg_index(r, ns), (ns, r[reg_index(r, ns)].1.push((f, h))))
    } else {
        r.push((ns, seq![(f, h)]))
    }
}

/// The handler that installation leaves reachable under `f`: a table is
/// filled in registration order and each set overwrites its predecessor,
/// so the last pair registered under a name is the one script code
/// reaches.
pub open spec fn last_handler<H>(entries: Seq<(Seq<char>, H)>, f: Seq<char>) -> Option<H>
    decreases entries.len(),
{
    if entries.len() == 0 {
        None
    } else if entries.last().0 == f {
        Some(entries.last().1)
    } else {
        last_handler(entries.drop_last(), f)
    }
}

/// A context's installed globals after installing every namespace of `r`,
/// in order, on top of `g0`: each namespace name is bound to its
/// registered entries.
pub open spec fn installed<H>(
    g0: Map<Seq<char>, Seq<(Seq<char>, H)>>,
    r: Seq<(Seq<char>, Seq<(Seq<char>, H)>)>,
) -> Map<Seq<char>, Seq<(Seq<char>, H)>>
    decreases r.len(),
{
    if r.len() == 0 {
        g0
    } else {
        installed(g0, r.drop_last()).insert(r.last().0, r.last().1)
    }
}

/// The installed globals of a context nothing was installed into.
pub open spec fn no_globals<H>() -> Map<Seq<char>, Seq<(Seq<char>, H)>> {
    Map::empty()
}

/// No two stored plugins share an identifier.
pub open spec fn plugins_wf<H>(ps: Seq<Plugin<H>>) -> bool {
    forall|i: int, j: int| 0 <= i < j < ps.len() ==> ps[i].id@ != ps[j].id@
}

/// Whether a plugin with this identifier is stored.
pub open spec fn has_plugin_id<H>(ps: Seq<Plugin<H>>, id: Seq<char>) -> bool {
    exists|i: int| 0 <= i < ps.len() && ps[i].id@ == id
}

/// The position of the plugin with this identifier.
pub open spec fn plugin_index<H>(ps: Seq<Plugin<H>>, id: Seq<char>) -> int {
    choose|i: int| 0 <= i < ps.len() && ps[i].id@ == id
}

/// The plugin stored under this identifier.
pub open spec fn stored_plugin<H>(ps: Seq<Plugin<H>>, id: Seq<char>) -> Plugin<H> {
    ps[plugin_index(ps, id)]
}

/// The collection after storing `p`: a plugin under a fresh identifier is
/// appended; one under an identifier already present silently replaces
/// the earlier entry.
pub open spec fn plugins_insert<H>(ps: Seq<Plugin<H>>, p: Plugin<H>) -> Seq<Plugin<H>> {
    if has_plugin_id(ps, p.id@) {
        ps.update(plugin_index(ps, p.id@), p)
    } else {
        ps.push(p)
    }
}

/// The collection after storing every plugin of `batch`, in order.
pub open spec fn plugins_insert_all<H>(ps: Seq<Plugin<H>>, batch: Seq<Plugin<H>>) -> Seq<
    Plugin<H>,
>
    decreases batch.len(),
{
    if batch.len() == 0 {
        ps
    } else {
        plugins_insert_all(plugins_insert(ps, batch.first()), batch.drop_first())
    }
}

/// Owns the native-function registry, the per-context memory limit, the
/// message-channel sender, and the loaded plugins.  `T` is the host's
/// message type; `H` the type of the registered native handlers.
#[verifier::reject_recursive_types(T)]
pub struct PluginManager<T, H> {
    pub mem_limit: usize,
    pub plugins: Vec<Plugin<H>>,
    pub tx: Sender<T>,
    pub namespaces: Vec<(String, Vec<(String, H)>)>,
}

impl<T, H> PluginManager<T, H> {
    /// The registry as a mapping from namespace name to its ordered
    /// (function name, handler) pairs.
    pub open spec fn registry(self) -> Seq<(Seq<char>, Seq<(Seq<char>, H)>)> {
        self.namespaces@.map_values(
            |e: (String, Vec<(String, H)>)|
                (e.0@, e.1@.map_values(|p: (String, H)| (p.0@, p.1))),
        )
    }

    /// Namespace names and plugin identifiers are each unique.
    pub open spec fn wf(self) -> bool {
        reg_wf(self.registry()) && plugins_wf(self.plugins@)
    }

    /// A fresh manager: the given memory limit and sender, no plugins,
    /// an empty registry.
    pub fn new(mem_limit: usize, tx: Sender<T>) -> (m: Self)
        ensures
            m.wf(),
            m.mem_limit == mem_limit,
            m.tx == tx,
            m.plugins@ == Seq::<Plugin<H>>::empty(),
            m.registry() == Seq::<(Seq<char>, Seq<(Seq<char>, H)>)>::empty(),
    {
        let m = PluginManager { mem_limit, plugins: Vec::new(), tx, namespaces: Vec::new() };
        proof {
            assert(m.registry() =~~= Seq::<(Seq<char>, Seq<(Seq<char>, H)>)>::empty());
        }
        m
    }

    /// Registers a native handler under `(namespace, func)`, creating the
    /// namespace entry when absent.  Nothing else of the manager changes.
    /// No uniqueness check is made: registering twice under one pair
    /// appends twice, and installation later lets the second registration
    /// win (see `lemma_register_last_wins`).
    pub fn handle(&mut self, namespace: &str, func: &str, cb: H)
        requires
            old(self).wf(),
        ensures
            final(self).wf(),
            final(self).mem_limit == old(self).mem_limit,
            final(self).tx == old(self).tx,
            final(self).plugins == old(self).plugins,
            final(self).registry() == reg_register(old(self).registry(), namespace@, func@, cb),
    {
        let ns_key: String = namespace.to_owned();
        let f_key: String = func.to_owned();
        let ghost r = self.registry();
        let n: usize = self.namespaces.len();
        let mut i: usize = 0;
        while i < n
            invariant
                old(self).wf(),
                i <= n,
                n == self.namespaces@.len(),
                *self == *old(self),
                r == self.registry(),
                ns_key@ == namespace@,
                f_key@ == func@,
                forall|k: int| 0 <= k < i ==> r[k].0 != namespace@,
            decreases n - i,
        {
            if self.namespaces[i].0 == ns_key {
                self.namespaces[i].1.push((f_key, cb));
                proof {
                    assert(r[i as int].0 == namespace@);
                    lemma_reg_index_is(r, namespace@, i as int);
                    assert(self.registry() =~~= reg_register(r, namespace@, func@, cb));
                    assert forall|a: int, b: int|
                        0 <= a < b < self.registry().len() implies self.registry()[a].0
                        != self.registry()[b].0 by {
                        assert(self.registry()[a].0 == r[a].0);
                        assert(self.registry()[b].0 == r[b].0);
                    }
                }
                return ;
            }
            i += 1;
        }
        let mut entries: Vec<(String, H)> = Vec::new();
        entries.push((f_key, cb));
        self.namespaces.push((ns_key, entries));
        proof {
            assert(!reg_has(r, namespace@));
            assert(self.registry() =~~= reg_register(r, namespace@, func@, cb));
            assert forall|a: int, b: int|
                0 <= a < b < self.registry().len() implies self.registry()[a].0
                != self.registry()[b].0 by {
                if b < r.len() {
                    assert(self.registry()[a].0 == r[a].0);
                    assert(self.registry()[b].0 == r[b].0);
                } else {
                    assert(self.registry()[b].0 == namespace@);
                    assert(self.registry()[a].0 == r[a].0);
                }
            }
        }
    }

    /// Stores a plugin: one with a fresh identifier is appended, one with
    /// an identifier already present replaces the earlier entry.
    fn insert_plugin(&mut self, plugin: Plugin<H>)
        requires
            old(self).wf(),
        ensures
            final(self).wf(),
            final(self).mem_limit == old(self).mem_limit,
            final(self).tx == old(self).tx,
            final(self).namespaces == old(self).namespaces,
            final(self).plugins@ == plugins_insert(old(self).plugins@, plugin),
    {
        let ghost ps = self.plugins@;
        let n: usize = self.plugins.len();
        let mut i: usize = 0;
        while i < n
            invariant
                old(self).wf(),
                i <= n,
                n == self.plugins@.len(),
                *self == *old(self),
                ps == self.plugins@,
                forall|k: int| 0 <= k < i ==> ps[k].id@ != plugin.id@,
            decreases n - i,
        {
            if self.plugins[i].id == plugin.id {
                proof {
                    assert(ps[i as int].id@ == plugin.id@);
                    lemma_plugin_index_is(ps, plugin.id@, i as int);
                    lemma_store_keyed_by_id(ps, plugin);
                }
                self.plugins[i] = plugin;
                return ;
            }
            i += 1;
        }
        proof {
            assert(!has_plugin_id(ps, plugin.id@));
            lemma_store_keyed_by_id(ps, plugin);
        }
        self.plugins.push(plugin);
    }

    /// Iterates the stored plugins in order and executes `func` once
    /// inside each one's context.  The interpreter decides each call's
    /// outcome; success is returned exactly when every stored context was
    /// driven once with `func` and each call succeeded — in particular,
    /// with no plugins stored the pass succeeds without executing
    /// anything.  The first failing call (an undefined function as much
    /// as a runtime error) is written to standard error prefixed by that
    /// plugin's identifier, iteration stops immediately, and the pass
    /// reports failure: some plugin was driven and failed, those before
    /// it were driven, and those after it were not invoked this pass.
    /// Identifiers, limits and installed namespaces are untouched.
    pub fn call_plugins(&mut self, func: &str) -> (all_ok: bool)
        ensures
            final(self).mem_limit == old(self).mem_limit,
            final(self).tx == old(self).tx,
            final(self).namespaces == old(self).namespaces,
            final(self).plugins@.len() == old(self).plugins@.len(),
            forall|k: int|
                #![trigger final(self).plugins@[k]]
                0 <= k < old(self).plugins@.len() ==> final(self).plugins@[k].id == old(
                    self,
                ).plugins@[k].id && final(self).plugins@[k].ctx.limit@ == old(
                    self,
                ).plugins@[k].ctx.limit@ && final(self).plugins@[k].ctx.globals@
                    == old(self).plugins@[k].ctx.globals@,
            old(self).plugins@.len() == 0 ==> all_ok,
            all_ok ==> forall|k: int|
                #![trigger final(self).plugins@[k]]
                0 <= k < old(self).plugins@.len() ==> final(self).plugins@[k].ctx.calls@
                    == old(self).plugins@[k].ctx.calls@.push((func@, true)),
            !all_ok ==> exists|k: int|
                #![trigger final(self).plugins@[k]]
                0 <= k < old(self).plugins@.len() && final(self).plugins@[k].ctx.calls@ == old(
                    self,
                ).plugins@[k].ctx.calls@.push((func@, false)) && (forall|m: int|
                    #![trigger final(self).plugins@[m]]
                    0 <= m < k ==> final(self).plugins@[m].ctx.calls@ == old(
                        self,
                    ).plugins@[m].ctx.calls@.push((func@, true))) && (forall|m: int|
                    #![trigger final(self).plugins@[m]]
                    k < m < old(self).plugins@.len() ==> final(self).plugins@[m].ctx.calls@
                        == old(self).plugins@[m].ctx.calls@),
            old(self).wf() ==> final(self).wf(),
    {
        let n: usize = self.plugins.len();
        let mut i: usize = 0;
        while i < n
            invariant
                i <= n,
                n == old(self).plugins@.len(),
                n == self.plugins@.len(),
                self.mem_limit == old(self).mem_limit,
                self.tx == old(self).tx,
                self.namespaces == old(self).namespaces,
                forall|k: int|
                    #![trigger self.plugins@[k]]
                    0 <= k < n ==> self.plugins@[k].id == old(self).plugins@[k].id
                        && self.plugins@[k].ctx.limit@ == old(
                        self,
                    ).plugins@[k].ctx.limit@ && self.plugins@[k].ctx.globals@ == old(
                        self,
                    ).plugins@[k].ctx.globals@,
                forall|m: int|
                    #![trigger self.plugins@[m]]
                    0 <= m < i ==> self.plugins@[m].ctx.calls@ == old(
                        self,
                    ).plugins@[m].ctx.calls@.push((func@, true)),
                forall|m: int|
                    #![trigger self.plugins@[m]]
                    i <= m < n ==> self.plugins@[m].ctx.calls@ == old(
                        self,
                    ).plugins@[m].ctx.calls@,
            decreases n - i,
        {
            let prefix: String = self.plugins[i].id.clone();
            let ok: bool = lua_api::exec_logged(&mut self.plugins[i].ctx, func, prefix.as_str());
            if !ok {
                proof {
                    let ghost k = i as int;
                    assert(0 <= k < n && final(self).plugins@[k].ctx.calls@ == old(
                        self,
                    ).plugins@[k].ctx.calls@.push((func@, false)) && (forall|m: int|
                        #![trigger final(self).plugins@[m]]
                        0 <= m < k ==> final(self).plugins@[m].ctx.calls@ == old(
                            self,
                        ).plugins@[m].ctx.calls@.push((func@, true))) && (forall|m: int|
                        #![trigger final(self).plugins@[m]]
                        k < m < n ==> final(self).plugins@[m].ctx.calls@ == old(
                            self,
                        ).plugins@[m].ctx.calls@));
                    if old(self).wf() {
                        lemma_same_ids_keep_wf(old(self).plugins@, final(self).plugins@);
                    }
                }
                return false;
            }
            i += 1;
        }
        proof {
            if old(self).wf() {
                lemma_same_ids_keep_wf(old(self).plugins@, final(self).plugins@);
            }
        }
        true
    }

    /// The number of stored plugins.
    pub fn plugin_count(&self) -> (n: usize)
        ensures
            n == self.plugins@.len(),
    {
        self.plugins.len()
    }

    /// Whether a plugin with this identifier is stored.
    pub fn has_plugin(&self, id: &str) -> (found: bool)
        ensures
            found == has_plugin_id(self.plugins@, id@),
    {
        let key: String = id.to_owned();
        let n: usize = self.plugins.len();
        let mut i: usize = 0;
        while i < n
            invariant
                i <= n,
                n == self.plugins@.len(),
                key@ == id@,
                forall|k: int| 0 <= k < i ==> self.plugins@[k].id@ != id@,
            decreases n - i,
        {
            if self.plugins[i].id == key {
                return true;
            }
            i += 1;
        }
        false
    }
}

impl<T, H> PluginManager<T, H> where
    T: 'static,
    H: Fn(Sender<T>, mlua::Variadic<mlua::Value>) -> mlua::Value + Copy + 'static,
 {
    /// Installs the registry into a context: applies the memory limit,
    /// then for every namespace builds a fresh table, fills it in
    /// registration order with the registered handlers (each wrapped with
    /// its own clone of the message sender), and exposes it as a global
    /// under the namespace's name.  On success the context's model says
    /// so exactly: the manager's limit is applied and the installed
    /// globals bind every registered namespace to its entries.  The
    /// interpreter decides each step's outcome; a false result means some
    /// step failed and the context is not to be used.  No chunk is driven
    /// either way.
    pub fn configure_context(&self, ctx: &mut Context<H>) -> (ok: bool)
        ensures
            final(ctx).calls@ == old(ctx).calls@,
            ok ==> final(ctx).limit@ == Some(self.mem_limit as nat),
            ok ==> final(ctx).globals@ == installed(
                old(ctx).globals@,
                self.registry(),
            ),
    {
        let ghost g0 = ctx.globals@;
        let ghost c0 = ctx.calls@;
        let ghost reg = self.registry();
        if !lua_api::apply_memory_limit(ctx, self.mem_limit) {
            return false;
        }
        let n: usize = self.namespaces.len();
        let mut i: usize = 0;
        while i < n
            invariant
                i <= n,
                n == self.namespaces@.len(),
                reg == self.registry(),
                reg.len() == n,
                ctx.limit@ == Some(self.mem_limit as nat),
                ctx.calls@ == c0,
                c0 == old(ctx).calls@,
                g0 == old(ctx).globals@,
                ctx.globals@ == installed(g0, reg.subrange(0, i as int)),
            decreases n - i,
        {
            let table_opt: Option<NsTable<H>> = crate::context::new_ns_table(ctx);
            match table_opt {
                Option::Some(mut table) => {
                    let m: usize = self.namespaces[i].1.len();
                    let ghost entry_list = reg[i as int].1;
                    proof {
                        assert(reg[i as int] == (
                            self.namespaces@[i as int].0@,
                            self.namespaces@[i as int].1@.map_values(
                                |p: (String, H)| (p.0@, p.1),
                            ),
                        ));
                        assert(entry_list.len() == m);
                        assert(table.entries@ =~= entry_list.subrange(0, 0));
                    }
                    let mut j: usize = 0;
                    while j < m
                        invariant
                            j <= m,
                            i < self.namespaces@.len(),
                            m == self.namespaces@[i as int].1@.len(),
                            reg == self.registry(),
                            i < reg.len(),
                            entry_list == reg[i as int].1,
                            entry_list.len() == m,
                            table.entries@ == entry_list.subrange(0, j as int),
                            ctx.calls@ == c0,
                            c0 == old(ctx).calls@,
                        decreases m - j,
                    {
                        let tx2: Sender<T> = self.tx.clone();
                        let installed_one: bool = lua_api::install_handler(
                            ctx,
                            &mut table,
                            self.namespaces[i].1[j].0.as_str(),
                            tx2,
                            self.namespaces[i].1[j].1,
                        );
                        if !installed_one {
                            return false;
                        }
                        proof {
                            assert(entry_list[j as int] == (
                                self.namespaces@[i as int].1@[j as int].0@,
                                self.namespaces@[i as int].1@[j as int].1,
                            ));
                            assert(table.entries@ =~= entry_list.subrange(0, j + 1));
                        }
                        j += 1;
                    }
                    proof {
                        assert(table.entries@ =~= entry_list);
                    }
                    if !lua_api::set_global(ctx, self.namespaces[i].0.as_str(), &table) {
                        return false;
                    }
                    proof {
                        assert(reg.subrange(0, i + 1).drop_last() =~= reg.subrange(0, i as int));
                        assert(reg.subrange(0, i + 1).last() == reg[i as int]);
                        assert(self.namespaces@[i as int].0@ == reg[i as int].0);
                        assert(ctx.globals@ == installed(g0, reg.subrange(0, i + 1)));
                    }
                },
                Option::None => {
                    return false;
                },
            }
            i += 1;
        }
        proof {
            assert(reg.subrange(0, n as int) =~= reg);
        }
        true
    }

    /// The computing half of discovery for one candidate directory: given
    /// the path of an entry script and its source text, creates a fresh
    /// context, configures it (memory limit and namespaces), evaluates
    /// the script's top-level body in it — an evaluation error is
    /// deliberately discarded, the plugin is stored regardless — and
    /// stores the plugin under the directory's name.  On success the
    /// stored plugin is pinned down: it carries the derived identifier,
    /// a context with the manager's limit applied and exactly the
    /// registry installed, in which exactly the given script was driven;
    /// it replaces any earlier plugin of the same identifier.  Only a
    /// context that could not be configured makes the candidate fail,
    /// leaving the manager unchanged.
    pub fn load_plugin(&mut self, path: &str, script: &str) -> (loaded: bool)
        requires
            old(self).wf(),
            has_separator(path@),
        ensures
            final(self).wf(),
            final(self).mem_limit == old(self).mem_limit,
            final(self).tx == old(self).tx,
            final(self).namespaces == old(self).namespaces,
            loaded ==> has_plugin_id(final(self).plugins@, id_of_path(path@)),
            loaded ==> final(self).plugins@ == plugins_insert(
                old(self).plugins@,
                stored_plugin(final(self).plugins@, id_of_path(path@)),
            ),
            loaded ==> stored_plugin(final(self).plugins@, id_of_path(path@)).id@ == id_of_path(
                path@,
            ),
            loaded ==> stored_plugin(final(self).plugins@, id_of_path(path@)).ctx.limit@
                == Some(old(self).mem_limit as nat),
            loaded ==> stored_plugin(final(self).plugins@, id_of_path(path@)).ctx.globals@
                == installed(no_globals::<H>(), old(self).registry()),
            loaded ==> stored_plugin(final(self).plugins@, id_of_path(path@)).ctx.calls@.len()
                == 1 && stored_plugin(final(self).plugins@, id_of_path(path@)).ctx.calls@[0].0
                == script@,
            !loaded ==> final(self).plugins == old(self).plugins,
    {
        let mut ctx: Context<H> = Context::fresh();
        if !self.configure_context(&mut ctx) {
            return false;
        }
        let id: String = utils::plugin_id_from_path(path);
        let _evaluated: bool = lua_api::eval_named_chunk(&mut ctx, script, id.as_str());
        proof {
            assert(ctx.calls@.len() == 1 && ctx.calls@[0].0 == script@);
        }
        let plugin = Plugin { id, ctx };
        let ghost p = plugin;
        let ghost ps0 = self.plugins@;
        self.insert_plugin(plugin);
        proof {
            lemma_store_keyed_by_id(ps0, p);
            let ghost ps2 = final(self).plugins@;
            if has_plugin_id(ps0, p.id@) {
                let ghost idx = plugin_index(ps0, p.id@);
                assert(ps2[idx] == p);
                lemma_plugin_index_is(ps2, p.id@, idx);
            } else {
                assert(ps2[ps0.len() as int] == p);
                lemma_plugin_index_is(ps2, p.id@, ps0.len() as int);
            }
            assert(stored_plugin(ps2, id_of_path(path@)) == p);
        }
        true
    }
}

/// Within a well-formed registry, the namespace found at a position is the
/// one its name selects.
proof fn lemma_reg_index_is<H>(r: Seq<(Seq<char>, Seq<(Seq<char>, H)>)>, ns: Seq<char>, i: int)
    requires
        reg_wf(r),
        0 <= i < r.len(),
        r[i].0 == ns,
    ensures
        reg_has(r, ns),
        reg_index(r, ns) == i,
{
    assert(reg_has(r, ns));
    let j = reg_index(r, ns);
    assert(0 <= j < r.len() && r[j].0 == ns);
    if j < i {
        assert(r[j].0 != r[i].0);
    } else if i < j {
        assert(r[i].0 != r[j].0);
    }
}

/// Within a well-formed collection, the plugin found at a position is the
/// one its identifier selects.
proof fn lemma_plugin_index_is<H>(ps: Seq<Plugin<H>>, id: Seq<char>, i: int)
    requires
        plugins_wf(ps),
        0 <= i < ps.len(),
        ps[i].id@ == id,
    ensures
        has_plugin_id(ps, id),
        plugin_index(ps, id) == i,
{
    assert(has_plugin_id(ps, id));
    let j = plugin_index(ps, id);
    assert(0 <= j < ps.len() && ps[j].id@ == id);
    if j < i {
        assert(ps[j].id@ != ps[i].id@);
    } else if i < j {
        assert(ps[i].id@ != ps[j].id@);
    }
}

/// A pass that leaves every stored identifier in place keeps the
/// collection well-formed.
proof fn lemma_same_ids_keep_wf<H>(ps: Seq<Plugin<H>>, qs: Seq<Plugin<H>>)
    requires
        ps.len() == qs.len(),
        forall|k: int| #![trigger qs[k]] 0 <= k < ps.len() ==> qs[k].id == ps[k].id,
        plugins_wf(ps),
    ensures
        plugins_wf(qs),
{
    assert forall|i: int, j: int| 0 <= i < j < qs.len() implies qs[i].id@ != qs[j].id@ by {
        assert(qs[i].id == ps[i].id);
        assert(qs[j].id == ps[j].id);
    }
}

/// Law: after registering a handler under `(ns, f)`, that handler — and no
/// earlier one — is the one installation leaves reachable as `ns.f` from
/// script code: the last registration under an identical pair wins.
pub proof fn lemma_register_last_wins<H>(
    r: Seq<(Seq<char>, Seq<(Seq<char>, H)>)>,
    ns: Seq<char>,
    f: Seq<char>,
    h: H,
)
    requires
        reg_wf(r),
    ensures
        last_handler(reg_entries(reg_register(r, ns, f, h), ns), f) == Some(h),
{
    let r2 = reg_register(r, ns, f, h);
    if reg_has(r, ns) {
        let i = reg_index(r, ns);
        assert(0 <= i < r.len() && r[i].0 == ns);
        assert(r2[i].0 == ns);
        assert forall|a: int, b: int| 0 <= a < b < r2.len() implies r2[a].0 != r2[b].0 by {
            assert(r2[a].0 == r[a].0);
            assert(r2[b].0 == r[b].0);
        }
        lemma_reg_index_is(r2, ns, i);
        assert(reg_entries(r2, ns) == r[i].1.push((f, h)));
        assert(reg_entries(r2, ns).last() == (f, h));
    } else {
        assert(r2[r.len() as int].0 == ns);
        assert forall|a: int, b: int| 0 <= a < b < r2.len() implies r2[a].0 != r2[b].0 by {
            if b < r.len() {
                assert(r2[a].0 == r[a].0);
                assert(r2[b].0 == r[b].0);
            } else {
                assert(r2[b].0 == ns);
                assert(r2[a].0 == r[a].0);
            }
        }
        lemma_reg_index_is(r2, ns, r.len() as int);
        assert(reg_entries(r2, ns) =~= seq![(f, h)]);
        assert(reg_entries(r2, ns).last() == (f, h));
    }
}

/// Law: a configured context holds exactly the registry.  Installing a
/// well-formed registry on top of some installed globals binds every
/// registered namespace to its own entries — so, with
/// `lemma_register_last_wins`, the handler reachable as `ns.f` in a
/// configured context is the last one registered under `(ns, f)` — and
/// leaves every other name as it was.
pub proof fn lemma_installed_namespaces<H>(
    g0: Map<Seq<char>, Seq<(Seq<char>, H)>>,
    r: Seq<(Seq<char>, Seq<(Seq<char>, H)>)>,
)
    requires
        reg_wf(r),
    ensures
        forall|ns: Seq<char>|
            reg_has(r, ns) ==> #[trigger] installed(g0, r).contains_key(ns) && installed(g0, r)[ns]
                == reg_entries(r, ns),
        forall|ns: Seq<char>|
            !reg_has(r, ns) ==> #[trigger] installed(g0, r).contains_key(ns) == g0.contains_key(ns)
                && (g0.contains_key(ns) ==> installed(g0, r)[ns] == g0[ns]),
    decreases r.len(),
{
    if r.len() == 0 {
    } else {
        let r1 = r.drop_last();
        let last = r.last();
        assert forall|i: int, j: int| 0 <= i < j < r1.len() implies r1[i].0 != r1[j].0 by {
            assert(r1[i] == r[i]);
            assert(r1[j] == r[j]);
        }
        lemma_installed_namespaces(g0, r1);
        let g2 = installed(g0, r);
        assert(g2 == installed(g0, r1).insert(last.0, last.1));
        assert forall|ns: Seq<char>|
            reg_has(r, ns) implies #[trigger] g2.contains_key(ns) && g2[ns] == reg_entries(
            r,
            ns,
        ) by {
            let k = reg_index(r, ns);
            assert(0 <= k < r.len() && r[k].0 == ns);
            if k == r.len() - 1 {
                assert(g2[ns] == last.1);
                assert(reg_entries(r, ns) == r[k].1);
            } else {
                assert(r[k].0 != r[r.len() - 1].0);
                assert(ns != last.0);
                assert(r1[k] == r[k]);
                assert(reg_has(r1, ns));
                lemma_reg_index_is(r1, ns, k);
                assert(g2[ns] == installed(g0, r1)[ns]);
                assert(reg_entries(r1, ns) == r1[k].1);
                assert(reg_entries(r, ns) == r[k].1);
            }
        }
        assert forall|ns: Seq<char>|
            !reg_has(r, ns) implies #[trigger] g2.contains_key(ns) == g0.contains_key(ns) && (
        g0.contains_key(ns) ==> g2[ns] == g0[ns]) by {
            assert(r[r.len() - 1].0 == last.0);
            if ns == last.0 {
                assert(reg_has(r, ns));
            }
            if reg_has(r1, ns) {
                let k2 = reg_index(r1, ns);
                assert(0 <= k2 < r1.len() && r1[k2].0 == ns);
                assert(r1[k2] == r[k2]);
                assert(reg_has(r, ns));
            }
        }
    }
}

/// Law: discovery stores plugins keyed by directory name.  Storing one
/// under a fresh identifier appends it and grows the collection by one;
/// storing one under an identifier already present replaces the earlier
/// entry — the last stored wins — and keeps the count.  Identifiers stay
/// unique either way.
pub proof fn lemma_store_keyed_by_id<H>(ps: Seq<Plugin<H>>, p: Plugin<H>)
    requires
        plugins_wf(ps),
    ensures
        plugins_wf(plugins_insert(ps, p)),
        has_plugin_id(plugins_insert(ps, p), p.id@),
        !has_plugin_id(ps, p.id@) ==> plugins_insert(ps, p) == ps.push(p)
            && plugins_insert(ps, p).len() == ps.len() + 1,
        has_plugin_id(ps, p.id@) ==> plugins_insert(ps, p) == ps.update(
            plugin_index(ps, p.id@),
            p,
        ) && plugins_insert(ps, p).len() == ps.len(),
{
    let ps2 = plugins_insert(ps, p);
    if has_plugin_id(ps, p.id@) {
        let i = plugin_index(ps, p.id@);
        assert(0 <= i < ps.len() && ps[i].id@ == p.id@);
        assert(ps2[i].id@ == p.id@);
        assert forall|a: int, b: int| 0 <= a < b < ps2.len() implies ps2[a].id@ != ps2[b].id@ by {
            if a != i {
                assert(ps2[a] == ps[a]);
            }
            if b != i {
                assert(ps2[b] == ps[b]);
            }
            if a == i {
                assert(ps[a].id@ == p.id@);
            }
            if b == i {
                assert(ps[b].id@ == p.id@);
            }
        }
        assert(has_plugin_id(ps2, p.id@));
    } else {
        assert(ps2[ps.len() as int].id@ == p.id@);
        assert(has_plugin_id(ps2, p.id@));
        assert forall|a: int, b: int| 0 <= a < b < ps2.len() implies ps2[a].id@ != ps2[b].id@ by {
            if b < ps.len() {
                assert(ps2[a] == ps[a]);
                assert(ps2[b] == ps[b]);
            } else {
                assert(ps2[b] == p);
                assert(ps2[a] == ps[a]);
            }
        }
    }
}

/// Law: a scan over plugin directories with pairwise-distinct names, none
/// loaded before, stores exactly one plugin per directory: the collection
/// grows by the batch's length, and afterwards an identifier is present
/// exactly when it was present before or belongs to the batch.
pub proof fn lemma_scan_stores_each<H>(ps: Seq<Plugin<H>>, batch: Seq<Plugin<H>>)
    requires
        plugins_wf(ps),
        forall|i: int, j: int| 0 <= i < j < batch.len() ==> batch[i].id@ != batch[j].id@,
        forall|i: int| 0 <= i < batch.len() ==> !has_plugin_id(ps, #[trigger] batch[i].id@),
    ensures
        plugins_wf(plugins_insert_all(ps, batch)),
        plugins_insert_all(ps, batch).len() == ps.len() + batch.len(),
        forall|id: Seq<char>|
            #[trigger] has_plugin_id(plugins_insert_all(ps, batch), id) <==> (has_plugin_id(
                ps,
                id,
            ) || exists|i: int| 0 <= i < batch.len() && batch[i].id@ == id),
    decreases batch.len(),
{
    if batch.len() == 0 {
    } else {
        let first = batch.first();
        let rest = batch.drop_first();
        assert(!has_plugin_id(ps, batch[0].id@));
        lemma_store_keyed_by_id(ps, first);
        let ps2 = plugins_insert(ps, first);
        assert(ps2 == ps.push(first));
        assert forall|id: Seq<char>| #[trigger]
            has_plugin_id(ps2, id) <==> (has_plugin_id(ps, id) || first.id@ == id) by {
            if has_plugin_id(ps2, id) {
                let k = choose|k: int| 0 <= k < ps2.len() && ps2[k].id@ == id;
                if k < ps.len() {
                    assert(ps[k].id@ == id);
                    assert(has_plugin_id(ps, id));
                } else {
                    assert(ps2[k] == first);
                }
            }
            if has_plugin_id(ps, id) {
                let k = choose|k: int| 0 <= k < ps.len() && ps[k].id@ == id;
                assert(ps2[k].id@ == id);
                assert(has_plugin_id(ps2, id));
            }
            if first.id@ == id {
                assert(ps2[ps.len() as int].id@ == id);
                assert(has_plugin_id(ps2, id));
            }
        }
        assert forall|i: int, j: int| 0 <= i < j < rest.len() implies rest[i].id@ != rest[j].id@ by {
            assert(rest[i] == batch[i + 1]);
            assert(rest[j] == batch[j + 1]);
        }
        assert forall|i: int| 0 <= i < rest.len() implies !has_plugin_id(
            ps2,
            #[trigger] rest[i].id@,
        ) by {
            assert(rest[i] == batch[i + 1]);
            assert(batch[0].id@ != batch[i + 1].id@);
            assert(!has_plugin_id(ps, batch[i + 1].id@));
        }
        lemma_scan_stores_each(ps2, rest);
        assert(plugins_insert_all(ps, batch) == plugins_insert_all(ps2, rest));
        assert forall|id: Seq<char>| #[trigger]
            has_plugin_id(plugins_insert_all(ps, batch), id) <==> (has_plugin_id(ps, id) || exists|
                i: int,
            |
                0 <= i < batch.len() && batch[i].id@ == id) by {
            if exists|i: int| 0 <= i < batch.len() && batch[i].id@ == id {
                let i = choose|i: int| 0 <= i < batch.len() && batch[i].id@ == id;
                if i == 0 {
                    assert(first.id@ == id);
                } else {
                    assert(rest[i - 1].id@ == id);
                    assert(exists|j: int| 0 <= j < rest.len() && rest[j].id@ == id);
                }
            }
            if exists|j: int| 0 <= j < rest.len() && rest[j].id@ == id {
                let j = choose|j: int| 0 <= j < rest.len() && rest[j].id@ == id;
                assert(batch[j + 1].id@ == id);
                assert(exists|i: int| 0 <= i < batch.len() && batch[i].id@ == id);
            }
        }
    }
}

} // verus!
