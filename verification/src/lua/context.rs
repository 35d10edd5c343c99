//! The `ctx` table handed to a script's `decide(ctx)`.
//!
//! It is everything the policy is allowed to see: `pressure` and `trigger` are computed here and
//! do not depend on the platform, `engine` is what the heartbeat reported, and `signal` is the
//! raw reading behind `pressure` for a script that normalizes otherwise.

use crate::float::F64;
use crate::lua::vm::{
    create_table, fields, held_once, home, machine, may_fail_to_create, may_fail_to_put, put_boolean,
    put_number, put_table, put_text, put_unsigned, unsigned_field, Field,
};
use crate::policy::common::state::{Pressure6D, SignalState, TriggerState};
use crate::wire::{EngineState, EngineStatus, Phase};
use vstd::prelude::*;

verus! {

pub open spec fn pressure_fields(p: Pressure6D) -> Map<Seq<char>, Field> {
    Map::empty()
        .insert("gpu"@, Field::Number(p.gpu.widen()))
        .insert("cpu"@, Field::Number(p.cpu.widen()))
        .insert("memory"@, Field::Number(p.memory.widen()))
        .insert("thermal"@, Field::Number(p.thermal.widen()))
        .insert("latency"@, Field::Number(p.latency.widen()))
        .insert("main_app"@, Field::Number(p.main_app.widen()))
}

pub open spec fn trigger_fields(t: TriggerState) -> Map<Seq<char>, Field> {
    Map::empty()
        .insert("tbt_degraded"@, Field::Boolean(t.tbt_degraded))
        .insert("mem_low"@, Field::Boolean(t.mem_low))
        .insert("temp_high"@, Field::Boolean(t.temp_high))
}

pub open spec fn phase_name(phase: Phase) -> Seq<char> {
    match phase {
        Phase::Idle => "idle"@,
        Phase::Prefill => "prefill"@,
        Phase::Decode => "decode"@,
    }
}

pub open spec fn state_name(state: EngineState) -> Seq<char> {
    match state {
        EngineState::Idle => "idle"@,
        EngineState::Running => "running"@,
        EngineState::Suspended => "suspended"@,
    }
}

/// What a heartbeat says, before `kv_fill`.
pub open spec fn heartbeat_fields(st: EngineStatus) -> Map<Seq<char>, Field> {
    Map::empty()
        .insert("seen"@, Field::Boolean(true))
        .insert("kv_cache_bytes"@, unsigned_field(st.kv_cache_bytes))
        .insert("kv_cache_budget_bytes"@, unsigned_field(st.kv_cache_budget_bytes))
        .insert("kv_cache_tokens"@, unsigned_field(st.kv_cache_tokens))
        .insert("tbt_ms"@, Field::Number(st.tbt_ms.widen()))
        .insert("phase"@, Field::Text(phase_name(st.phase)))
        .insert("state"@, Field::Text(state_name(st.state)))
}

/// The heartbeat, or an explicit "nothing heard yet".
///
/// `kv_fill`, the fraction of the uncompressed footprint that is resident, is left out where the
/// footprint is not known yet.
pub open spec fn engine_fields(engine: Option<EngineStatus>) -> Map<Seq<char>, Field> {
    match engine {
        Some(st) => if st.kv_cache_budget_bytes > 0 {
            heartbeat_fields(st).insert(
                "kv_fill"@,
                Field::Number(
                    F64::from_whole(st.kv_cache_bytes).over(
                        F64::from_whole(st.kv_cache_budget_bytes),
                    ),
                ),
            )
        } else {
            heartbeat_fields(st)
        },
        None => Map::empty().insert("seen"@, Field::Boolean(false)),
    }
}

pub open spec fn memory_fields(s: SignalState) -> Map<Seq<char>, Field> {
    Map::empty()
        .insert("available"@, unsigned_field(s.mem_available))
        .insert("total"@, unsigned_field(s.mem_total))
}

pub open spec fn compute_fields(s: SignalState) -> Map<Seq<char>, Field> {
    Map::empty()
        .insert("cpu_pct"@, Field::Number(s.cpu_pct))
        .insert("gpu_pct"@, Field::Number(s.gpu_pct))
}

/// The temperature is given in degrees.
pub open spec fn thermal_fields(s: SignalState) -> Map<Seq<char>, Field> {
    Map::empty()
        .insert(
            "temp_c"@,
            Field::Number(F64::from_signed(s.temp_mc).over(F64 { bits: 0x408f_4000_0000_0000 })),
        )
        .insert("throttling"@, Field::Boolean(s.throttling))
}

pub open spec fn signal_fields(s: SignalState) -> Map<Seq<char>, Field> {
    Map::empty()
        .insert("memory"@, Field::Table(memory_fields(s)))
        .insert("compute"@, Field::Table(compute_fields(s)))
        .insert("thermal"@, Field::Table(thermal_fields(s)))
}

/// The whole `ctx`.
pub open spec fn ctx_fields(
    pressure: Pressure6D,
    trigger: TriggerState,
    signals: SignalState,
    engine: Option<EngineStatus>,
) -> Map<Seq<char>, Field> {
    Map::empty()
        .insert("pressure"@, Field::Table(pressure_fields(pressure)))
        .insert("trigger"@, Field::Table(trigger_fields(trigger)))
        .insert("engine"@, Field::Table(engine_fields(engine)))
        .insert("signal"@, Field::Table(signal_fields(signals)))
}

/// A status behind a reference, if there is one.
pub open spec fn known(engine: Option<&EngineStatus>) -> Option<EngineStatus> {
    match engine {
        Some(st) => Some(*st),
        None => None,
    }
}

/// Whether a table with its fields can fail to be built so: it cannot be created, or a field cannot
/// be put into it.
pub open spec fn may_fail_to_build(error: mlua::Error) -> bool {
    may_fail_to_create(error) || exists|name: Seq<char>| #[trigger] may_fail_to_put(name, error)
}

/// Builds the `ctx` table for one call of `decide`. It fails only where the machine does.
pub fn build_ctx(
    lua: &mlua::Lua,
    pressure: &Pressure6D,
    trigger: &TriggerState,
    signals: &SignalState,
    engine: Option<&EngineStatus>,
) -> (r: Result<mlua::Table, mlua::Error>)
    ensures
        r is Ok ==> home(r->Ok_0) == machine(*lua) && held_once(r->Ok_0),
        r is Ok ==> fields(r->Ok_0) == ctx_fields(*pressure, *trigger, *signals, known(engine)),
        r is Err ==> may_fail_to_build(r->Err_0),
{
    let mut ctx = create_table(lua)?;

    let mut p = create_table(lua)?;
    put_number(lua, &mut p, "gpu", pressure.gpu.widen())?;
    put_number(lua, &mut p, "cpu", pressure.cpu.widen())?;
    put_number(lua, &mut p, "memory", pressure.memory.widen())?;
    put_number(lua, &mut p, "thermal", pressure.thermal.widen())?;
    put_number(lua, &mut p, "latency", pressure.latency.widen())?;
    put_number(lua, &mut p, "main_app", pressure.main_app.widen())?;
    put_table(lua, &mut ctx, "pressure", p)?;

    let mut t = create_table(lua)?;
    put_boolean(lua, &mut t, "tbt_degraded", trigger.tbt_degraded)?;
    put_boolean(lua, &mut t, "mem_low", trigger.mem_low)?;
    put_boolean(lua, &mut t, "temp_high", trigger.temp_high)?;
    put_table(lua, &mut ctx, "trigger", t)?;

    let e = engine_table(lua, engine)?;
    put_table(lua, &mut ctx, "engine", e)?;

    let mut s = create_table(lua)?;
    let mut mem = create_table(lua)?;
    put_unsigned(lua, &mut mem, "available", signals.mem_available)?;
    put_unsigned(lua, &mut mem, "total", signals.mem_total)?;
    put_table(lua, &mut s, "memory", mem)?;
    let mut compute = create_table(lua)?;
    put_number(lua, &mut compute, "cpu_pct", signals.cpu_pct)?;
    put_number(lua, &mut compute, "gpu_pct", signals.gpu_pct)?;
    put_table(lua, &mut s, "compute", compute)?;
    let mut thermal = create_table(lua)?;
    let temp_c: F64 = F64::from_signed(signals.temp_mc).over(F64 { bits: 0x408f_4000_0000_0000 });
    put_number(lua, &mut thermal, "temp_c", temp_c)?;
    put_boolean(lua, &mut thermal, "throttling", signals.throttling)?;
    put_table(lua, &mut s, "thermal", thermal)?;
    put_table(lua, &mut ctx, "signal", s)?;

    Ok(ctx)
}

/// Builds the `engine` table.
///
/// `seen` is the load-bearing field: without it a manager that has never received a heartbeat is
/// indistinguishable from one that talks to an engine with an empty cache.
pub fn engine_table(lua: &mlua::Lua, engine: Option<&EngineStatus>) -> (r: Result<
    mlua::Table,
    mlua::Error,
>)
    ensures
        r is Ok ==> home(r->Ok_0) == machine(*lua) && held_once(r->Ok_0),
        r is Ok ==> fields(r->Ok_0) == engine_fields(known(engine)),
        r is Err ==> may_fail_to_build(r->Err_0),
{
    let mut e = create_table(lua)?;
    match engine {
        Some(st) => {
            put_boolean(lua, &mut e, "seen", true)?;
            put_unsigned(lua, &mut e, "kv_cache_bytes", st.kv_cache_bytes)?;
            put_unsigned(lua, &mut e, "kv_cache_budget_bytes", st.kv_cache_budget_bytes)?;
            put_unsigned(lua, &mut e, "kv_cache_tokens", st.kv_cache_tokens)?;
            put_number(lua, &mut e, "tbt_ms", st.tbt_ms.widen())?;
            let phase: &'static str = match st.phase {
                Phase::Idle => "idle",
                Phase::Prefill => "prefill",
                Phase::Decode => "decode",
            };
            put_text(lua, &mut e, "phase", phase)?;
            let state: &'static str = match st.state {
                EngineState::Idle => "idle",
                EngineState::Running => "running",
                EngineState::Suspended => "suspended",
            };
            put_text(lua, &mut e, "state", state)?;
            if st.kv_cache_budget_bytes > 0 {
                let fill: F64 = F64::from_whole(st.kv_cache_bytes).over(
                    F64::from_whole(st.kv_cache_budget_bytes),
                );
                put_number(lua, &mut e, "kv_fill", fill)?;
            }
        },
        None => {
            put_boolean(lua, &mut e, "seen", false)?;
        },
    }
    Ok(e)
}

/// A script can tell "no heartbeat" from "empty cache", and never divides by a footprint that is
/// not known: `seen` is always there and true exactly after a heartbeat, the cache fields are
/// there exactly after a heartbeat, and `kv_fill` exactly where the footprint is above zero.
pub proof fn law_engine_is_told_apart(engine: Option<EngineStatus>)
    ensures
        ({
            let e = engine_fields(engine);
            &&& e.dom().contains("seen"@)
            &&& e["seen"@] == Field::Boolean(engine is Some)
            &&& e.dom().contains("kv_cache_bytes"@) <==> engine is Some
            &&& e.dom().contains("kv_cache_budget_bytes"@) <==> engine is Some
            &&& e.dom().contains("kv_fill"@) <==> (engine is Some
                && engine->Some_0.kv_cache_budget_bytes > 0)
        }),
{
    reveal_strlit("seen");
    reveal_strlit("kv_cache_bytes");
    reveal_strlit("kv_cache_budget_bytes");
    reveal_strlit("kv_cache_tokens");
    reveal_strlit("tbt_ms");
    reveal_strlit("phase");
    reveal_strlit("state");
    reveal_strlit("kv_fill");
    assert("seen"@.len() == 4 && "kv_cache_bytes"@.len() == 14 && "kv_cache_budget_bytes"@.len()
        == 21 && "kv_cache_tokens"@.len() == 15 && "tbt_ms"@.len() == 6 && "phase"@.len() == 5
        && "state"@.len() == 5 && "kv_fill"@.len() == 7);
}

} // verus!
