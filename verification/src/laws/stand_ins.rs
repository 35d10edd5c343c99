//! What the stand-ins for the engine and for the manager do.

use crate::emitter::dbus::DbusValue;
use crate::float::meaning::{law_times32, lemma_constants, lemma_is32, lemma_order32};
use crate::float::model::lemma_units_at;
use crate::float::shares::{law_difference_keeps_its_side, lemma_fractions};
use crate::float::{binary32, lemma_formats, F32};
use crate::mock_engine::{counted_on, heartbeat_of, token_counted, EngineState_};
use crate::mock_manager::{
    checked, command_built, named_signal, CommandError, SignalParams,
};
use crate::wire::{CommandResponse, CommandResult, EngineCommand, EngineState};
use vstd::arithmetic::power2::{lemma2_to64, lemma_pow2_adds, pow2};
use vstd::prelude::*;

verus! {

/// What a command can leave as it was: all but the occupancy, the state and the skipping.
pub open spec fn same_settings(a: EngineState_, b: EngineState_) -> bool {
    &&& a.active_device == b.active_device
    &&& a.throttle_delay_ms == b.throttle_delay_ms
    &&& a.eviction_policy == b.eviction_policy
    &&& a.tokens_generated == b.tokens_generated
}

/// What is left of a value between two bounds.
pub open spec fn cut(x: int, low: int, high: int) -> int {
    if x < low {
        low
    } else if x > high {
        high
    } else {
        x
    }
}

proof fn lemma_cut(x: F32, low: F32, high: F32)
    requires
        !x.is_nan(),
        !low.is_nan(),
        !high.is_nan(),
    ensures
        x.clamped(low, high).value() == cut(x.value(), low.value(), high.value()),
{
    lemma_order32(x, low);
    lemma_order32(high, x);
}

proof fn lemma_number(x: F32, num: int, den: nat)
    requires
        x.is(num, den),
    ensures
        !x.is_nan(),
{
    lemma_formats();
    lemma_is32(x, num, den);
}

proof fn lemma_product(x: F32, y: F32)
    requires
        x.is_finite(),
        y.is_finite(),
    ensures
        ({
            let left = x.times(y).clamped(F32 { bits: 0x3c23_d70a }, F32 { bits: 0x3f80_0000 });
            &&& !x.times(y).is_nan()
            &&& !left.is_nan()
            &&& left.value() == cut(
                x.times(y).value(),
                (F32 { bits: 0x3c23_d70a }).value(),
                pow2(149) as int,
            )
        }),
{
    lemma_formats();
    lemma_constants();
    law_times32(x, y);
    lemma_number(x.times(y), x.value() * y.value(), pow2(149));
    lemma_cut(x.times(y), F32 { bits: 0x3c23_d70a }, F32 { bits: 0x3f80_0000 });
}

proof fn lemma_left_is_finite(x: F32)
    requires
        !x.is_nan(),
    ensures
        x.clamped(F32 { bits: 0x3c23_d70a }, F32 { bits: 0x3f80_0000 }).is_finite(),
{
    lemma_formats();
}

/// A compression leaves the occupancy times the budget, as near as numbers get, but no less than
/// a hundredth and no more than all. It is declined exactly where it would reclaim less than three
/// hundredths; then nothing changes, and all is said to be achieved. No other part of the state has
/// a say in it, and none changes.
pub proof fn law_compression_leaves_the_budgets_share(
    engine: EngineState_,
    budget: F32,
    after: EngineState_,
    result: CommandResult,
)
    requires
        engine.applied(EngineCommand::KvCompress { budget }, after, result),
        engine.kv_occupancy.is_finite(),
        budget.is_finite(),
    ensures
        exists|product: F32, least: F32, step: F32, gain: F32|
            #![trigger product.is(engine.kv_occupancy.value() * budget.value(), pow2(149)),
                least.is(pow2(149) as int, 100),
                step.is((3 * pow2(149)) as int, 100),
                gain.is(
                    engine.kv_occupancy.value() - cut(
                        product.value(),
                        least.value(),
                        pow2(149) as int,
                    ),
                    1,
                )]
            {
                let left = cut(product.value(), least.value(), pow2(149) as int);
                &&& product.is(engine.kv_occupancy.value() * budget.value(), pow2(149))
                &&& least.is(pow2(149) as int, 100)
                &&& step.is((3 * pow2(149)) as int, 100)
                &&& gain.is(engine.kv_occupancy.value() - left, 1)
                &&& result is Partial <==> gain.value() < step.value()
                &&& result is Applied <==> gain.value() >= step.value()
                &&& result is Applied ==> after.kv_occupancy.value() == left
            },
        result is Partial ==> after == engine && result->achieved.value() == pow2(149)
            && result->Partial_reason@
            == "compression declined: too little would be reclaimed"@,
        after.state == engine.state,
        after.skip_ratio == engine.skip_ratio,
        after.active_actions == engine.active_actions,
        same_settings(engine, after),
{
    let product = engine.kv_occupancy.times(budget);
    let least = F32 { bits: 0x3c23_d70a };
    let step = F32 { bits: 0x3cf5_c28f };
    let left = engine.compressed(budget);
    let gain = engine.kv_occupancy.minus(left);
    lemma_fractions();
    lemma_constants();
    law_times32(engine.kv_occupancy, budget);
    lemma_product(engine.kv_occupancy, budget);
    lemma_left_is_finite(product);
    law_difference_keeps_its_side(engine.kv_occupancy, left);
    lemma_declined(gain);
}

proof fn lemma_declined(gain: F32)
    requires
        !gain.is_nan(),
    ensures
        gain.lt(F32 { bits: 0x3cf5_c28f }) <==> gain.value() < (F32 {
            bits: 0x3cf5_c28f,
        }).value(),
{
    lemma_formats();
    lemma_order32(gain, F32 { bits: 0x3cf5_c28f });
}

/// The other commands are always applied. A release clears what was applied and what is skipped,
/// and runs again; suspending and resuming change the state alone. None of them touches the cache.
pub proof fn law_other_commands_are_applied(
    engine: EngineState_,
    command: EngineCommand,
    after: EngineState_,
    result: CommandResult,
)
    requires
        engine.applied(command, after, result),
        !(command is KvCompress),
    ensures
        result is Applied,
        after.kv_occupancy == engine.kv_occupancy,
        same_settings(engine, after),
        command is Suspend <==> after.state == EngineState::Suspended,
        !(command is Suspend) <==> after.state == EngineState::Running,
        command is RestoreDefaults ==> after.active_actions@.len() == 0 && after.skip_ratio.value()
            == 0,
        !(command is RestoreDefaults) ==> after.active_actions == engine.active_actions
            && after.skip_ratio == engine.skip_ratio,
{
    lemma_constants();
}

/// A heartbeat tells the state that the engine is in, and a token every 12.5 milliseconds.
pub proof fn law_heartbeat_tells_the_state(state: EngineState)
    ensures
        heartbeat_of(state).state == state,
        heartbeat_of(state).phase is Decode,
        2 * heartbeat_of(state).tbt_ms.value() == 25 * pow2(149),
        0 < heartbeat_of(state).kv_cache_bytes < heartbeat_of(state).kv_cache_budget_bytes,
        heartbeat_of(state).kv_cache_budget_bytes == 4 * heartbeat_of(state).kv_cache_bytes,
        heartbeat_of(state).kv_cache_tokens == 32,
        heartbeat_of(state).kv_cache_bytes == 1024,
{
    reveal(F32::value);
    lemma_formats();
    lemma2_to64();
    lemma_units_at(binary32(), 129, 0xc8_0000);
    lemma_pow2_adds(20, 129);
    assert(2 * (0xc8_0000 * pow2(129)) == 25 * (0x10_0000 * pow2(129))) by (nonlinear_arith);
}

/// The counts go up by one, until they start again.
pub proof fn law_counts_go_up_by_one(count: u32, tokens: usize)
    ensures
        count < u32::MAX ==> counted_on(count) == count + 1,
        count == u32::MAX ==> counted_on(count) == 0,
        tokens < usize::MAX ==> token_counted(tokens) == tokens + 1,
        tokens == usize::MAX ==> token_counted(tokens) == 0,
{
}

/// A command comes of its own name and of no other, with the ratio that was given; a compression
/// without one and an unknown name are told apart.
pub proof fn law_commands_come_of_their_names(
    name: Seq<char>,
    keep_ratio: Option<F32>,
    r: Result<EngineCommand, CommandError>,
)
    requires
        command_built(name, keep_ratio, r),
    ensures
        r is Ok && r->Ok_0 is KvCompress <==> name == "KvCompress"@ && keep_ratio is Some,
        r is Ok && r->Ok_0 is KvCompress ==> keep_ratio == Some(r->Ok_0->budget),
        r is Ok && r->Ok_0 is RestoreDefaults <==> name == "RestoreDefaults"@,
        r is Ok && r->Ok_0 is Suspend <==> name == "Suspend"@,
        r is Ok && r->Ok_0 is Resume <==> name == "Resume"@,
        r is Err && r->Err_0 is MissingKeepRatio <==> name == "KvCompress"@ && keep_ratio is None,
        r is Err && r->Err_0 is Unknown ==> r->Err_0->Unknown_0@ == name,
{
    reveal_strlit("KvCompress");
    reveal_strlit("RestoreDefaults");
    reveal_strlit("Suspend");
    reveal_strlit("Resume");
    assert("KvCompress"@.len() == 10 && "RestoreDefaults"@.len() == 15 && "Suspend"@.len() == 7
        && "Resume"@.len() == 6);
}

/// An answer passes only with the number that was sent and as many results as commands, and the
/// check tells which of the two is wrong.
pub proof fn law_wrong_answers_are_told(seq_id: u64, response: CommandResponse, commands: nat)
    ensures
        checked(seq_id, response, commands).seq_id_matches <==> response.seq_id == seq_id,
        checked(seq_id, response, commands).count_matches <==> response.results@.len() == commands,
{
}

/// A signal that is built by name has that name and the level that is given, and each value that is
/// given at its own place.
pub proof fn law_named_signals_carry_their_values(
    name: Seq<char>,
    level: Seq<char>,
    p: SignalParams,
)
    ensures
        match named_signal(name, level, p) {
            Some(m) => m.member == name && m.args.len() > 0 && m.args[0] == DbusValue::Text(level),
            None => name != "MemoryPressure"@ && name != "ComputeGuidance"@ && name
                != "ThermalAlert"@ && name != "EnergyConstraint"@,
        },
        named_signal(name, level, p) is Some <==> name == "MemoryPressure"@ || name
            == "ComputeGuidance"@ || name == "ThermalAlert"@ || name == "EnergyConstraint"@,
{
}

/// A memory signal that is built by name: bytes that are not given are none.
pub proof fn law_named_memory(level: Seq<char>, p: SignalParams)
    ensures
        ({
            let args = named_signal("MemoryPressure"@, level, p)->Some_0.args;
            &&& args.len() == 3
            &&& p.available_bytes is Some ==> args[1] == DbusValue::Unsigned(
                p.available_bytes->Some_0,
            )
            &&& p.available_bytes is None ==> args[1] == DbusValue::Unsigned(0)
            &&& p.reclaim_target_bytes is Some ==> args[2] == DbusValue::Unsigned(
                p.reclaim_target_bytes->Some_0,
            )
            &&& p.reclaim_target_bytes is None ==> args[2] == DbusValue::Unsigned(0)
        }),
{
}

/// A compute signal that is built by name: the backend that is not given is any, the reason that
/// is not given is a balance, and usage that is not given is none.
pub proof fn law_named_compute(level: Seq<char>, p: SignalParams)
    ensures
        ({
            let args = named_signal("ComputeGuidance"@, level, p)->Some_0.args;
            &&& args.len() == 5
            &&& p.recommended_backend is Some ==> args[1] == DbusValue::Text(
                p.recommended_backend->Some_0@,
            )
            &&& p.recommended_backend is None ==> args[1] == DbusValue::Text("any"@)
            &&& p.reason is Some ==> args[2] == DbusValue::Text(p.reason->Some_0@)
            &&& p.reason is None ==> args[2] == DbusValue::Text("balanced"@)
            &&& p.cpu_usage_pct is Some ==> args[3] == DbusValue::Number(p.cpu_usage_pct->Some_0)
            &&& p.cpu_usage_pct is None ==> args[3] is Number && args[3]->Number_0.value() == 0
            &&& p.gpu_usage_pct is Some ==> args[4] == DbusValue::Number(p.gpu_usage_pct->Some_0)
            &&& p.gpu_usage_pct is None ==> args[4] is Number && args[4]->Number_0.value() == 0
        }),
{
    lemma_constants();
    reveal_strlit("MemoryPressure");
    reveal_strlit("ComputeGuidance");
    assert("MemoryPressure"@.len() == 14 && "ComputeGuidance"@.len() == 15);
}

/// A thermal signal that is built by name: a temperature that is not given is 25 degrees,
/// throttling that is not given is none, and a ratio that is not given is one.
pub proof fn law_named_heat(level: Seq<char>, p: SignalParams)
    ensures
        ({
            let args = named_signal("ThermalAlert"@, level, p)->Some_0.args;
            &&& args.len() == 4
            &&& p.temperature_mc is Some ==> args[1] == DbusValue::Signed(p.temperature_mc->Some_0)
            &&& p.temperature_mc is None ==> args[1] == DbusValue::Signed(25000)
            &&& p.throttling_active is Some ==> args[2] == DbusValue::Flag(
                p.throttling_active->Some_0,
            )
            &&& p.throttling_active is None ==> args[2] == DbusValue::Flag(false)
            &&& p.throttle_ratio is Some ==> args[3] == DbusValue::Number(p.throttle_ratio->Some_0)
            &&& p.throttle_ratio is None ==> args[3] is Number && args[3]->Number_0.value()
                == pow2(1074)
        }),
{
    lemma_constants();
    reveal_strlit("MemoryPressure");
    reveal_strlit("ComputeGuidance");
    reveal_strlit("ThermalAlert");
    assert("MemoryPressure"@.len() == 14 && "ComputeGuidance"@.len() == 15 && "ThermalAlert"@.len()
        == 12);
}

/// An energy signal that is built by name: a reason that is not given is none, and so is a budget.
pub proof fn law_named_energy(level: Seq<char>, p: SignalParams)
    ensures
        ({
            let args = named_signal("EnergyConstraint"@, level, p)->Some_0.args;
            &&& args.len() == 3
            &&& p.reason is Some ==> args[1] == DbusValue::Text(p.reason->Some_0@)
            &&& p.reason is None ==> args[1] == DbusValue::Text("none"@)
            &&& p.power_budget_mw is Some ==> args[2] == DbusValue::Word(p.power_budget_mw->Some_0)
            &&& p.power_budget_mw is None ==> args[2] == DbusValue::Word(0)
        }),
{
    reveal_strlit("MemoryPressure");
    reveal_strlit("ComputeGuidance");
    reveal_strlit("ThermalAlert");
    reveal_strlit("EnergyConstraint");
    assert("MemoryPressure"@.len() == 14 && "ComputeGuidance"@.len() == 15 && "ThermalAlert"@.len()
        == 12 && "EnergyConstraint"@.len() == 16);
}

} // verus!
