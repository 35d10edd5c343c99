//! What a signal or a message changes.

use crate::config::AdaptationConfig;
use crate::float::meaning::lemma_constants;
use crate::float::widening::law_widen_keeps_the_value;
use crate::float::F64;
use crate::laws::context::{has, is_unsigned, law_readings_are_shown, within};
use crate::laws::triggers::{law_bad_times_are_ignored, law_degradation_decides_its_trigger};
use crate::lua::vm::Field;
use crate::lua_policy::LuaPolicy;
use crate::policy::common::state::share_of_hundred;
use crate::signal::SystemSignal;
use crate::wire::{EngineMessage, EngineStatus};
use vstd::arithmetic::power2::{lemma_pow2_pos, pow2};
use vstd::prelude::*;

verus! {

/// A compute signal is remembered axis by axis, changes nothing else, and reaches the script: the
/// processor's usage as the processor's, the GPU's as the GPU's.
pub proof fn law_usage_reaches_the_script(p: LuaPolicy, signal: SystemSignal, cpu: F64, gpu: F64)
    requires
        signal is ComputeGuidance,
        signal->cpu_usage_pct == cpu,
        signal->gpu_usage_pct == gpu,
    ensures
        ({
            let after = p.with_reading(signal);
            let compute = within(within(after.context(), "signal"@), "compute"@);
            &&& after.signal_state.cpu_pct == cpu
            &&& after.signal_state.gpu_pct == gpu
            &&& has(compute, "cpu_pct"@, Field::Number(cpu))
            &&& has(compute, "gpu_pct"@, Field::Number(gpu))
            &&& after.pressure().cpu == share_of_hundred(cpu)
            &&& after.pressure().gpu == share_of_hundred(gpu)
            &&& after.pressure().memory == p.pressure().memory
            &&& after.pressure().thermal == p.pressure().thermal
            &&& after.pressure().latency == p.pressure().latency
            &&& after.signal_state.mem_available == p.signal_state.mem_available
            &&& after.signal_state.mem_total == p.signal_state.mem_total
            &&& after.signal_state.temp_mc == p.signal_state.temp_mc
            &&& after.signal_state.throttling == p.signal_state.throttling
            &&& after.trigger_engine == p.trigger_engine
            &&& untouched(p, after)
        }),
{
    let after = p.with_reading(signal);
    law_readings_are_shown(
        after.pressure(),
        after.trigger_engine.trigger,
        after.signal_state,
        after.engine_state,
    );
}

/// What no signal changes.
pub open spec fn untouched(p: LuaPolicy, after: LuaPolicy) -> bool {
    &&& after.lua == p.lua
    &&& after.script_path == p.script_path
    &&& after.policy_meta == p.policy_meta
    &&& after.engine_state == p.engine_state
    &&& after.adaptation_config == p.adaptation_config
    &&& after.consecutive_errors == p.consecutive_errors
    &&& after.last_failure == p.last_failure
    &&& after.permanent_fallback == p.permanent_fallback
    &&& after.dropped_actions == p.dropped_actions
}

/// A memory signal is remembered, changes nothing else but the memory trigger, and reaches the
/// script.
pub proof fn law_memory_reaches_the_script(p: LuaPolicy, signal: SystemSignal)
    requires
        signal is MemoryPressure,
    ensures
        ({
            let after = p.with_reading(signal);
            let memory = within(within(after.context(), "signal"@), "memory"@);
            &&& after.signal_state.mem_available == signal->available_bytes
            &&& after.signal_state.mem_total == signal->total_bytes
            &&& is_unsigned(memory["available"@], signal->available_bytes)
            &&& is_unsigned(memory["total"@], signal->total_bytes)
            &&& after.pressure().cpu == p.pressure().cpu
            &&& after.pressure().gpu == p.pressure().gpu
            &&& after.pressure().thermal == p.pressure().thermal
            &&& after.pressure().latency == p.pressure().latency
            &&& after.signal_state.cpu_pct == p.signal_state.cpu_pct
            &&& after.signal_state.gpu_pct == p.signal_state.gpu_pct
            &&& after.signal_state.temp_mc == p.signal_state.temp_mc
            &&& after.signal_state.throttling == p.signal_state.throttling
            &&& after.trigger_engine.tbt == p.trigger_engine.tbt
            &&& after.trigger_engine.config == p.trigger_engine.config
            &&& after.trigger_engine.trigger.temp_high == p.trigger_engine.trigger.temp_high
            &&& after.trigger_engine.trigger.tbt_degraded == p.trigger_engine.trigger.tbt_degraded
            &&& untouched(p, after)
        }),
{
    let after = p.with_reading(signal);
    law_readings_are_shown(
        after.pressure(),
        after.trigger_engine.trigger,
        after.signal_state,
        after.engine_state,
    );
}

/// A thermal signal is remembered, changes nothing else but the thermal trigger, which the thermal
/// pressure then decides by its own thresholds, and reaches the script.
pub proof fn law_temperature_reaches_the_script(p: LuaPolicy, signal: SystemSignal)
    requires
        signal is ThermalAlert,
    ensures
        ({
            let after = p.with_reading(signal);
            let thermal = within(within(after.context(), "signal"@), "thermal"@);
            let config = p.trigger_engine.config;
            let heat = after.pressure().thermal.widen();
            &&& after.signal_state.temp_mc == signal->temperature_mc
            &&& after.signal_state.throttling == signal->throttling_active
            &&& has(thermal, "throttling"@, Field::Boolean(signal->throttling_active))
            &&& thermal["temp_c"@] is Number
            &&& exists|mc: F64| #[trigger]
                mc.is(signal->temperature_mc * pow2(1074), 1) && thermal["temp_c"@]->Number_0.is(
                    mc.value(),
                    1000,
                )
            &&& after.trigger_engine.trigger.temp_high == if p.trigger_engine.trigger.temp_high {
                !heat.lt(config.temp_exit)
            } else {
                config.temp_enter.lt(heat)
            }
            &&& after.pressure().cpu == p.pressure().cpu
            &&& after.pressure().gpu == p.pressure().gpu
            &&& after.pressure().memory == p.pressure().memory
            &&& after.pressure().latency == p.pressure().latency
            &&& after.signal_state.cpu_pct == p.signal_state.cpu_pct
            &&& after.signal_state.gpu_pct == p.signal_state.gpu_pct
            &&& after.signal_state.mem_available == p.signal_state.mem_available
            &&& after.signal_state.mem_total == p.signal_state.mem_total
            &&& after.trigger_engine.tbt == p.trigger_engine.tbt
            &&& after.trigger_engine.config == p.trigger_engine.config
            &&& after.trigger_engine.trigger.mem_low == p.trigger_engine.trigger.mem_low
            &&& after.trigger_engine.trigger.tbt_degraded == p.trigger_engine.trigger.tbt_degraded
            &&& untouched(p, after)
        }),
{
    let after = p.with_reading(signal);
    law_readings_are_shown(
        after.pressure(),
        after.trigger_engine.trigger,
        after.signal_state,
        after.engine_state,
    );
}

/// An energy signal is no reading.
pub proof fn law_energy_changes_nothing(p: LuaPolicy, signal: SystemSignal)
    requires
        signal is EnergyConstraint,
    ensures
        p.with_reading(signal) == p,
{
}

/// The level that a monitor gave has no say in what is remembered: only the readings have.
pub proof fn law_levels_are_not_readings(p: LuaPolicy, a: SystemSignal, b: SystemSignal)
    requires
        a is MemoryPressure && b is MemoryPressure && a->available_bytes == b->available_bytes
            && a->total_bytes == b->total_bytes || a is ThermalAlert && b is ThermalAlert
            && a->temperature_mc == b->temperature_mc && a->throttling_active
            == b->throttling_active || a is ComputeGuidance && b is ComputeGuidance
            && a->cpu_usage_pct == b->cpu_usage_pct && a->gpu_usage_pct == b->gpu_usage_pct,
    ensures
        p.with_reading(a) == p.with_reading(b),
{
}

/// A policy that is loaded has read nothing: every reading is zero, no trigger is set off, no
/// failure is counted, and it goes by what the operator has set.
pub proof fn law_policy_starts_unread(p: LuaPolicy, path: Seq<char>, config: AdaptationConfig)
    requires
        p.fresh(path, config),
    ensures
        p.signal_state.cpu_pct.value() == 0,
        p.signal_state.gpu_pct.value() == 0,
        p.signal_state.mem_available == 0,
        p.signal_state.mem_total == 0,
        p.signal_state.temp_mc == 0,
        !p.signal_state.throttling,
        !p.trigger_engine.trigger.mem_low,
        !p.trigger_engine.trigger.temp_high,
        !p.trigger_engine.trigger.tbt_degraded,
        p.trigger_engine.config == config.trigger,
        p.trigger_engine.tbt.baseline is None,
        p.trigger_engine.tbt.warmup_target == config.trigger.tbt_warmup_tokens,
        p.adaptation_config == config,
        p.script_path@ == path,
        p.engine_state is None,
        p.consecutive_errors == 0,
        p.last_failure is None,
        p.dropped_actions == 0,
        !p.permanent_fallback,
{
    lemma_constants();
}

/// A heartbeat's time between tokens is observed at its exact value, and only where it is above
/// zero.
pub proof fn law_heartbeat_time_is_observed(p: LuaPolicy, st: EngineStatus)
    requires
        st.tbt_ms.is_finite(),
    ensures
        exists|ms: F64| #[trigger]
            ms.is_finite() && ms.value() == st.tbt_ms.value() * pow2(925) && {
                let after = p.with_message(EngineMessage::Heartbeat(st)).trigger_engine;
                &&& st.tbt_ms.value() > 0 ==> after.tbt == p.trigger_engine.tbt.observed(ms)
                &&& st.tbt_ms.value() <= 0 ==> after == p.trigger_engine
            },
{
    let ms = st.tbt_ms.widen();
    law_widen_keeps_the_value(st.tbt_ms);
    lemma_pow2_pos(925);
    let v = st.tbt_ms.value();
    assert(v > 0 ==> v * pow2(925) > 0) by (nonlinear_arith)
        requires
            pow2(925) > 0,
    ;
    assert(v <= 0 ==> v * pow2(925) <= 0) by (nonlinear_arith)
        requires
            pow2(925) > 0,
    ;
    if v > 0 {
        law_degradation_decides_its_trigger(p.trigger_engine, ms);
    } else {
        law_bad_times_are_ignored(p.trigger_engine, ms);
    }
}

/// A heartbeat is remembered as it came, its time between tokens is observed, and nothing else
/// changes; a response changes nothing.
pub proof fn law_messages(p: LuaPolicy, msg: EngineMessage)
    ensures
        match msg {
            EngineMessage::Heartbeat(st) => {
                let after = p.with_message(msg);
                &&& after.engine_state == Some(st)
                &&& after.trigger_engine == p.trigger_engine.with_tbt_ms(st.tbt_ms.widen())
                &&& after.signal_state == p.signal_state
                &&& untouched(LuaPolicy { engine_state: Some(st), ..p }, after)
            },
            EngineMessage::Response(_) => p.with_message(msg) == p,
        },
{
}

} // verus!
