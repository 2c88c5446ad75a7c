use std::sync::mpsc::{channel, Sender};

use mlua::{Value, Variadic};
use plugin_lua::context::Context;
use plugin_lua::message::{should_terminate, Message};
use plugin_lua::PluginManager;

type Handler = fn(Sender<Message>, Variadic<Value>) -> Value;

fn as_num(v: &Value) -> Option<f64> {
    match v {
        Value::Integer(i) => Some(*i as f64),
        Value::Number(n) => Some(*n),
        _ => None,
    }
}

fn add_handler(_tx: Sender<Message>, v: Variadic<Value>) -> Value {
    let a = v.get(0).and_then(as_num).expect("missing a");
    let b = v.get(1).and_then(as_num).expect("missing b");
    Value::Number(a + b)
}

fn one_handler(_tx: Sender<Message>, _v: Variadic<Value>) -> Value {
    Value::Number(1.0)
}

fn two_handler(_tx: Sender<Message>, _v: Variadic<Value>) -> Value {
    Value::Number(2.0)
}

fn exit_handler(tx: Sender<Message>, _v: Variadic<Value>) -> Value {
    tx.send(Message::Exit(true)).unwrap();
    Value::Nil
}

fn mark_handler(tx: Sender<Message>, _v: Variadic<Value>) -> Value {
    tx.send(Message::Exit(false)).unwrap();
    Value::Nil
}

fn new_manager(limit: usize) -> (PluginManager<Message, Handler>, std::sync::mpsc::Receiver<Message>) {
    let (tx, rx) = channel::<Message>();
    (PluginManager::new(limit, tx), rx)
}

#[test]
fn native_add_reachable_from_script() {
    let (mut pm, _rx) = new_manager(2_048_000);
    pm.handle("math", "add", add_handler);
    let mut ctx: Context<Handler> = Context::fresh();
    assert!(pm.configure_context(&mut ctx));
    let got: f64 = ctx.lua.load("return math.add(2, 3)").eval().unwrap();
    assert_eq!(got, 5.0);
}

#[test]
fn duplicate_registration_last_wins() {
    let (mut pm, _rx) = new_manager(2_048_000);
    pm.handle("ns", "f", one_handler);
    pm.handle("ns", "f", two_handler);
    let mut ctx: Context<Handler> = Context::fresh();
    assert!(pm.configure_context(&mut ctx));
    let got: f64 = ctx.lua.load("return ns.f()").eval().unwrap();
    assert_eq!(got, 2.0);
}

#[test]
fn memory_limit_fails_allocating_call() {
    let (mut pm, _rx) = new_manager(1_000_000);
    let script = "function update()\n  local t = {}\n  for i = 1, 10000000 do t[i] = i end\nend";
    assert!(pm.load_plugin("root/greedy/main.lua", script));
    assert!(!pm.call_plugins("update()"));
    // the failed call is isolated to the script: the host carries on
    assert_eq!(pm.plugin_count(), 1);
}

#[test]
fn scan_stores_one_plugin_per_directory() {
    let (mut pm, _rx) = new_manager(2_048_000);
    assert!(pm.load_plugin("root/alpha/main.lua", ""));
    assert!(pm.load_plugin("root/beta/main.lua", ""));
    assert!(pm.load_plugin("root/gamma/main.lua", ""));
    assert_eq!(pm.plugin_count(), 3);
    assert!(pm.has_plugin("alpha"));
    assert!(pm.has_plugin("beta"));
    assert!(pm.has_plugin("gamma"));
    assert!(!pm.has_plugin("delta"));
}

#[test]
fn duplicate_directory_name_overwrites() {
    let (mut pm, _rx) = new_manager(2_048_000);
    // first load: the plugin defines no lifecycle function at all
    assert!(pm.load_plugin("root/beta/main.lua", ""));
    assert!(!pm.call_plugins("init()"));
    // second load under the same directory name replaces the first
    assert!(pm.load_plugin("root/beta/main.lua", "function init() end"));
    assert_eq!(pm.plugin_count(), 1);
    assert!(pm.call_plugins("init()"));
}

#[test]
fn invoke_all_short_circuits_on_failure() {
    let (mut pm, rx) = new_manager(2_048_000);
    pm.handle("sys", "mark", mark_handler);
    assert!(pm.load_plugin("root/a/main.lua", "function init() end"));
    assert!(pm.load_plugin("root/b/main.lua", ""));
    assert!(pm.load_plugin("root/c/main.lua", "function init() sys.mark() end"));
    // b defines no init: the pass fails there and c is never invoked
    assert!(!pm.call_plugins("init()"));
    assert!(rx.try_recv().is_err());
}

#[test]
fn top_level_error_still_stores_plugin() {
    let (mut pm, _rx) = new_manager(2_048_000);
    assert!(pm.load_plugin("root/broken/main.lua", "this is not lua"));
    assert_eq!(pm.plugin_count(), 1);
    assert!(pm.has_plugin("broken"));
}

#[test]
fn termination_message_stops_loop_then_destroy() {
    let (mut pm, rx) = new_manager(2_048_000);
    pm.handle("sys", "exit", exit_handler);
    let script =
        "function init() end\nfunction update() sys.exit() end\nfunction destroy() end";
    assert!(pm.load_plugin("root/quitter/main.lua", script));
    assert!(pm.call_plugins("init()"));
    let mut stop = false;
    let mut cycles = 0;
    while !stop {
        assert!(pm.call_plugins("update()"));
        while let Ok(msg) = rx.try_recv() {
            if should_terminate(&msg) {
                stop = true;
            }
        }
        cycles += 1;
        assert!(cycles <= 1, "termination request must stop the first cycle");
    }
    assert!(pm.call_plugins("destroy()"));
}

#[test]
fn should_terminate_reads_payload() {
    assert!(should_terminate(&Message::Exit(true)));
    assert!(!should_terminate(&Message::Exit(false)));
}

#[test]
fn handlers_get_own_sender() {
    let (mut pm, rx) = new_manager(2_048_000);
    pm.handle("sys", "exit", exit_handler);
    let mut ctx: Context<Handler> = Context::fresh();
    assert!(pm.configure_context(&mut ctx));
    ctx.lua.load("sys.exit()").exec().unwrap();
    assert!(matches!(rx.try_recv(), Ok(Message::Exit(true))));
}
