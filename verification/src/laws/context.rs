//! What a script sees is what was read, computed and reported.

use crate::float::meaning::{
    law_from_signed64, law_from_whole64, law_over64, lemma_constants, lemma_order64, lemma_scaled64,
};
use crate::float::{lemma_formats, F64};
use crate::lua::context::ctx_fields;
use crate::lua::vm::Field;
use crate::policy::common::state::{Pressure6D, SignalState, TriggerState};
use crate::wire::EngineStatus;
use vstd::arithmetic::power2::{lemma_pow2_pos, pow2};
use vstd::prelude::*;

verus! {

/// What a table holds under a name is a table, and this is what that holds.
pub open spec fn within(table: Map<Seq<char>, Field>, name: Seq<char>) -> Map<Seq<char>, Field> {
    table[name]->Table_0
}

/// Whether a table holds a table under a name.
pub open spec fn has_table(table: Map<Seq<char>, Field>, name: Seq<char>) -> bool {
    table.dom().contains(name) && table[name] is Table
}

/// Whether a table holds this field under a name.
pub open spec fn has(table: Map<Seq<char>, Field>, name: Seq<char>, field: Field) -> bool {
    table.dom().contains(name) && table[name] == field
}

proof fn lemma_top_names()
    ensures
        "pressure"@ != "trigger"@,
        "pressure"@ != "engine"@,
        "pressure"@ != "signal"@,
        "trigger"@ != "engine"@,
        "trigger"@ != "signal"@,
        "engine"@ != "signal"@,
{
    reveal_strlit("pressure");
    reveal_strlit("trigger");
    reveal_strlit("engine");
    reveal_strlit("signal");
    assert("pressure"@.len() == 8 && "trigger"@.len() == 7 && "engine"@.len() == 6
        && "signal"@.len() == 6);
    assert("engine"@[0] == 'e' && "signal"@[0] == 's');
}

proof fn lemma_pressure_names()
    ensures
        "gpu"@ != "cpu"@,
        "gpu"@.len() == 3,
        "cpu"@.len() == 3,
        "memory"@.len() == 6,
        "thermal"@ != "latency"@,
        "thermal"@.len() == 7,
        "latency"@.len() == 7,
        "main_app"@.len() == 8,
        "compute"@ != "thermal"@,
        "compute"@.len() == 7,
{
    reveal_strlit("gpu");
    reveal_strlit("cpu");
    reveal_strlit("memory");
    reveal_strlit("thermal");
    reveal_strlit("latency");
    reveal_strlit("main_app");
    reveal_strlit("compute");
    assert("gpu"@[0] == 'g' && "cpu"@[0] == 'c');
    assert("thermal"@[0] == 't' && "latency"@[0] == 'l' && "compute"@[0] == 'c');
}

/// A script finds every pressure under the name of its axis, and nothing else there.
pub proof fn law_pressure_is_shown(
    p: Pressure6D,
    t: TriggerState,
    s: SignalState,
    engine: Option<EngineStatus>,
)
    ensures
        ({
            let ctx = ctx_fields(p, t, s, engine);
            let shown = within(ctx, "pressure"@);
            &&& has_table(ctx, "pressure"@)
            &&& has(shown, "gpu"@, Field::Number(p.gpu.widen()))
            &&& has(shown, "cpu"@, Field::Number(p.cpu.widen()))
            &&& has(shown, "memory"@, Field::Number(p.memory.widen()))
            &&& has(shown, "thermal"@, Field::Number(p.thermal.widen()))
            &&& has(shown, "latency"@, Field::Number(p.latency.widen()))
            &&& has(shown, "main_app"@, Field::Number(p.main_app.widen()))
            &&& shown.dom() =~= set![
                "gpu"@,
                "cpu"@,
                "memory"@,
                "thermal"@,
                "latency"@,
                "main_app"@,
            ]
        }),
{
    lemma_top_names();
    lemma_pressure_names();
}

/// A script finds each trigger as it stands, and the four parts of the context and no more.
pub proof fn law_triggers_are_shown(
    p: Pressure6D,
    t: TriggerState,
    s: SignalState,
    engine: Option<EngineStatus>,
)
    ensures
        ({
            let ctx = ctx_fields(p, t, s, engine);
            let shown = within(ctx, "trigger"@);
            &&& has_table(ctx, "trigger"@)
            &&& has(shown, "tbt_degraded"@, Field::Boolean(t.tbt_degraded))
            &&& has(shown, "mem_low"@, Field::Boolean(t.mem_low))
            &&& has(shown, "temp_high"@, Field::Boolean(t.temp_high))
            &&& shown.dom() =~= set!["tbt_degraded"@, "mem_low"@, "temp_high"@]
            &&& ctx.dom() =~= set!["pressure"@, "trigger"@, "engine"@, "signal"@]
        }),
{
    lemma_top_names();
    reveal_strlit("tbt_degraded");
    reveal_strlit("mem_low");
    reveal_strlit("temp_high");
    assert("tbt_degraded"@.len() == 12 && "mem_low"@.len() == 7 && "temp_high"@.len() == 9);
}

/// A number of Lua that holds an unsigned number: as it is where an integer does, else nearest.
pub open spec fn is_unsigned(field: Field, n: u64) -> bool {
    if n <= 0x7fff_ffff_ffff_ffff {
        field is Integer && field->Integer_0 == n
    } else {
        field is Number && field->Number_0.is(n * pow2(1074), 1)
    }
}

/// A script finds every raw reading in its place: memory in bytes, usage in percent, the
/// temperature in degrees (a thousandth of what was read) and whether the chip throttles.
pub proof fn law_readings_are_shown(
    p: Pressure6D,
    t: TriggerState,
    s: SignalState,
    engine: Option<EngineStatus>,
)
    ensures
        ({
            let ctx = ctx_fields(p, t, s, engine);
            let signal = within(ctx, "signal"@);
            let memory = within(signal, "memory"@);
            let compute = within(signal, "compute"@);
            let thermal = within(signal, "thermal"@);
            &&& has_table(ctx, "signal"@)
            &&& has_table(signal, "memory"@)
            &&& has_table(signal, "compute"@)
            &&& has_table(signal, "thermal"@)
            &&& memory.dom() =~= set!["available"@, "total"@]
            &&& is_unsigned(memory["available"@], s.mem_available)
            &&& is_unsigned(memory["total"@], s.mem_total)
            &&& compute.dom() =~= set!["cpu_pct"@, "gpu_pct"@]
            &&& has(compute, "cpu_pct"@, Field::Number(s.cpu_pct))
            &&& has(compute, "gpu_pct"@, Field::Number(s.gpu_pct))
            &&& thermal.dom() =~= set!["temp_c"@, "throttling"@]
            &&& has(thermal, "throttling"@, Field::Boolean(s.throttling))
            &&& thermal["temp_c"@] is Number
            &&& exists|mc: F64| #[trigger]
                mc.is(s.temp_mc * pow2(1074), 1) && thermal["temp_c"@]->Number_0.is(
                    mc.value(),
                    1000,
                )
        }),
{
    lemma_top_names();
    lemma_pressure_names();
    reveal_strlit("available");
    reveal_strlit("total");
    reveal_strlit("cpu_pct");
    reveal_strlit("gpu_pct");
    reveal_strlit("temp_c");
    reveal_strlit("throttling");
    assert("available"@.len() == 9 && "total"@.len() == 5 && "temp_c"@.len() == 6
        && "throttling"@.len() == 10);
    assert("cpu_pct"@[0] == 'c' && "gpu_pct"@[0] == 'g');
    law_from_whole64(s.mem_available);
    law_from_whole64(s.mem_total);
    let mc = F64::from_signed(s.temp_mc);
    let thousand = F64 { bits: 0x408f_4000_0000_0000 };
    let w = pow2(1074);
    lemma_formats();
    lemma_constants();
    lemma_pow2_pos(1074);
    law_from_signed64(s.temp_mc);
    law_over64(mc, thousand);
    lemma_scaled64(mc.over(thousand), mc.value(), 1000, w);
}

/// The names of what a heartbeat says.
pub open spec fn engine_names() -> Set<Seq<char>> {
    set![
        "seen"@,
        "kv_cache_bytes"@,
        "kv_cache_budget_bytes"@,
        "kv_cache_tokens"@,
        "tbt_ms"@,
        "phase"@,
        "state"@,
    ]
}

/// A script finds what the last heartbeat said, under its names, and whether there was one.
pub proof fn law_heartbeat_is_shown(
    p: Pressure6D,
    t: TriggerState,
    s: SignalState,
    st: EngineStatus,
)
    ensures
        ({
            let ctx = ctx_fields(p, t, s, Some(st));
            let e = within(ctx, "engine"@);
            &&& has_table(ctx, "engine"@)
            &&& has(e, "seen"@, Field::Boolean(true))
            &&& e.dom().contains("kv_cache_bytes"@)
            &&& is_unsigned(e["kv_cache_bytes"@], st.kv_cache_bytes)
            &&& e.dom().contains("kv_cache_budget_bytes"@)
            &&& is_unsigned(e["kv_cache_budget_bytes"@], st.kv_cache_budget_bytes)
            &&& e.dom().contains("kv_cache_tokens"@)
            &&& is_unsigned(e["kv_cache_tokens"@], st.kv_cache_tokens)
            &&& has(e, "tbt_ms"@, Field::Number(st.tbt_ms.widen()))
            &&& e.dom() =~= if st.kv_cache_budget_bytes > 0 {
                engine_names().insert("kv_fill"@)
            } else {
                engine_names()
            }
            &&& st.phase is Idle ==> has(e, "phase"@, Field::Text("idle"@))
            &&& st.phase is Prefill ==> has(e, "phase"@, Field::Text("prefill"@))
            &&& st.phase is Decode ==> has(e, "phase"@, Field::Text("decode"@))
            &&& st.state is Idle ==> has(e, "state"@, Field::Text("idle"@))
            &&& st.state is Running ==> has(e, "state"@, Field::Text("running"@))
            &&& st.state is Suspended ==> has(e, "state"@, Field::Text("suspended"@))
            &&& has_table(ctx_fields(p, t, s, None), "engine"@)
            &&& within(ctx_fields(p, t, s, None), "engine"@) =~= Map::empty().insert(
                "seen"@,
                Field::Boolean(false),
            )
        }),
{
    lemma_top_names();
    lemma_engine_names();
    law_from_whole64(st.kv_cache_bytes);
    law_from_whole64(st.kv_cache_budget_bytes);
    law_from_whole64(st.kv_cache_tokens);
}

proof fn lemma_engine_names()
    ensures
        "seen"@.len() == 4,
        "kv_cache_bytes"@.len() == 14,
        "kv_cache_budget_bytes"@.len() == 21,
        "kv_cache_tokens"@.len() == 15,
        "tbt_ms"@.len() == 6,
        "phase"@.len() == 5,
        "state"@.len() == 5,
        "phase"@ != "state"@,
        "kv_fill"@.len() == 7,
{
    reveal_strlit("seen");
    reveal_strlit("kv_cache_bytes");
    reveal_strlit("kv_cache_budget_bytes");
    reveal_strlit("kv_cache_tokens");
    reveal_strlit("tbt_ms");
    reveal_strlit("phase");
    reveal_strlit("state");
    reveal_strlit("kv_fill");
    assert("phase"@[0] == 'p' && "state"@[0] == 's');
}

/// `kv_fill` is the resident bytes divided by the uncompressed ones, each as near as a number gets.
pub proof fn law_fill_is_the_resident_share(
    p: Pressure6D,
    t: TriggerState,
    s: SignalState,
    st: EngineStatus,
)
    requires
        st.kv_cache_budget_bytes > 0,
    ensures
        ({
            let e = within(ctx_fields(p, t, s, Some(st)), "engine"@);
            &&& e.dom().contains("kv_fill"@)
            &&& e["kv_fill"@] is Number
            &&& exists|bytes: F64, budget: F64|
                #![trigger bytes.is(st.kv_cache_bytes * pow2(1074), 1), budget.is(
                    st.kv_cache_budget_bytes * pow2(1074),
                    1,
                )]
                bytes.is(st.kv_cache_bytes * pow2(1074), 1) && budget.is(
                    st.kv_cache_budget_bytes * pow2(1074),
                    1,
                ) && budget.value() > 0 && e["kv_fill"@]->Number_0.is(
                    bytes.value() * pow2(1074),
                    budget.value() as nat,
                )
        }),
{
    let a = F64::from_whole(st.kv_cache_bytes);
    let b = F64::from_whole(st.kv_cache_budget_bytes);
    lemma_top_names();
    lemma_engine_names();
    law_from_whole64(st.kv_cache_bytes);
    law_from_whole64(st.kv_cache_budget_bytes);
    crate::float::law_whole_is_finite(st.kv_cache_budget_bytes);
    lemma_order64(F64 { bits: 0 }, b);
    law_over64(a, b);
}

} // verus!
