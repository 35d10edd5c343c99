use argus_manager::float::{F32, F64};
use argus_manager::lua::context::build_ctx;
use argus_manager::policy::common::state::{Pressure6D, SignalState, TriggerState};
use argus_manager::wire::{EngineState, EngineStatus, Phase};
use mlua::{Lua, Table};

fn s(x: f32) -> F32 {
    F32 { bits: x.to_bits() }
}

fn d(x: f64) -> F64 {
    F64 { bits: x.to_bits() }
}

fn status() -> EngineStatus {
    EngineStatus {
        kv_cache_bytes: 1024,
        kv_cache_budget_bytes: 4096,
        kv_cache_tokens: 32,
        tbt_ms: s(12.5),
        phase: Phase::Decode,
        state: EngineState::Running,
    }
}

fn ctx_with(engine: Option<&EngineStatus>) -> (Lua, Table) {
    let lua = Lua::new();
    let ctx = build_ctx(
        &lua,
        &Pressure6D {
            gpu: s(0.1),
            cpu: s(0.2),
            memory: s(0.3),
            thermal: s(0.4),
            latency: s(0.5),
            main_app: s(0.6),
        },
        &TriggerState { tbt_degraded: true, mem_low: false, temp_high: true },
        &SignalState {
            cpu_pct: d(20.0),
            gpu_pct: d(10.0),
            mem_available: 700,
            mem_total: 1000,
            temp_mc: 55_000,
            throttling: false,
        },
        engine,
    )
    .unwrap();
    (lua, ctx)
}

#[test]
fn pressure_trigger_and_signal_are_exposed() {
    let (_lua, ctx) = ctx_with(None);
    let p: Table = ctx.get("pressure").unwrap();
    assert_eq!(p.get::<f32>("memory").unwrap(), 0.3);
    let t: Table = ctx.get("trigger").unwrap();
    assert!(t.get::<bool>("tbt_degraded").unwrap());
    assert!(!t.get::<bool>("mem_low").unwrap());
    let s: Table = ctx.get("signal").unwrap();
    let thermal: Table = s.get("thermal").unwrap();
    assert_eq!(thermal.get::<f64>("temp_c").unwrap(), 55.0);
}

#[test]
fn engine_table_carries_the_heartbeat() {
    let st = status();
    let (_lua, ctx) = ctx_with(Some(&st));
    let e: Table = ctx.get("engine").unwrap();
    assert!(e.get::<bool>("seen").unwrap());
    assert_eq!(e.get::<u64>("kv_cache_budget_bytes").unwrap(), 4096);
    assert_eq!(e.get::<String>("phase").unwrap(), "decode");
    assert_eq!(e.get::<f64>("kv_fill").unwrap(), 0.25);
}

/// A script must be able to tell "no heartbeat" from "empty cache": both would read zero
/// bytes, and dividing by the missing denominator yields a budget that cannot be sent.
#[test]
fn no_heartbeat_is_distinguishable_from_an_empty_cache() {
    let (_lua, ctx) = ctx_with(None);
    let e: Table = ctx.get("engine").unwrap();
    assert!(!e.get::<bool>("seen").unwrap());
    assert!(
        e.get::<Option<u64>>("kv_cache_budget_bytes").unwrap().is_none(),
        "no fabricated denominator"
    );
    assert!(e.get::<Option<f64>>("kv_fill").unwrap().is_none());
}

#[test]
fn kv_fill_is_absent_when_the_denominator_is_unknown() {
    let st = EngineStatus { kv_cache_budget_bytes: 0, ..status() };
    let (_lua, ctx) = ctx_with(Some(&st));
    let e: Table = ctx.get("engine").unwrap();
    assert!(e.get::<bool>("seen").unwrap());
    assert!(
        e.get::<Option<f64>>("kv_fill").unwrap().is_none(),
        "0/0 must not reach the script as a number"
    );
}

#[test]
fn everything_else_is_in_its_place() {
    let st = EngineStatus {
        kv_cache_bytes: u64::MAX,
        kv_cache_budget_bytes: 1 << 62,
        phase: Phase::Prefill,
        state: EngineState::Suspended,
        ..status()
    };
    let (_lua, ctx) = ctx_with(Some(&st));
    let p: Table = ctx.get("pressure").unwrap();
    for (name, want) in
        [("gpu", 0.1f32), ("cpu", 0.2), ("thermal", 0.4), ("latency", 0.5), ("main_app", 0.6)]
    {
        assert_eq!(p.get::<f64>(name).unwrap(), want as f64);
    }
    let t: Table = ctx.get("trigger").unwrap();
    assert!(t.get::<bool>("temp_high").unwrap());
    let s: Table = ctx.get("signal").unwrap();
    let memory: Table = s.get("memory").unwrap();
    assert_eq!(memory.get::<u64>("available").unwrap(), 700);
    assert_eq!(memory.get::<u64>("total").unwrap(), 1000);
    let compute: Table = s.get("compute").unwrap();
    assert_eq!(compute.get::<f64>("cpu_pct").unwrap(), 20.0);
    assert_eq!(compute.get::<f64>("gpu_pct").unwrap(), 10.0);
    let thermal: Table = s.get("thermal").unwrap();
    assert!(!thermal.get::<bool>("throttling").unwrap());
    let e: Table = ctx.get("engine").unwrap();
    assert_eq!(e.get::<u64>("kv_cache_tokens").unwrap(), 32);
    assert_eq!(e.get::<f64>("tbt_ms").unwrap(), 12.5);
    assert_eq!(e.get::<String>("phase").unwrap(), "prefill");
    assert_eq!(e.get::<String>("state").unwrap(), "suspended");
    // What no integer holds arrives as a float.
    assert_eq!(e.get::<f64>("kv_cache_bytes").unwrap(), u64::MAX as f64);
    assert_eq!(e.get::<i64>("kv_cache_budget_bytes").unwrap(), 1 << 62);
    let keys = ctx.pairs::<String, Table>().count();
    assert_eq!(keys, 4);
    let idle = EngineStatus { phase: Phase::Idle, state: EngineState::Idle, ..status() };
    let (_lua, ctx) = ctx_with(Some(&idle));
    let e: Table = ctx.get("engine").unwrap();
    assert_eq!(e.get::<String>("phase").unwrap(), "idle");
    assert_eq!(e.get::<String>("state").unwrap(), "idle");
}
