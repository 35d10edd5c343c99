//! What comes of a call of the script, and of doing without it.

use crate::float::model::lemma_units_at;
use crate::float::shares::lemma_fractions;
use crate::float::{binary32, lemma_formats, F32};
use crate::lua::context::may_fail_to_build;
use crate::lua::decision::{actions, decision_read, refused, Decision};
use crate::lua::fallback::fallback_commands;
use crate::lua::vm::{
    calls_made, libraries, machine, may_answer, may_be_table, may_fail_to_limit, may_give_text,
    memory_limit, texts_run, Answer, Library,
};
use crate::lua_policy::{
    judged, may_say, sandboxed, LoadError, LuaPolicy, Outcome, PolicyMeta,
};
use crate::pipeline::{visited, OverrunCollector, PolicyStrategy, Shown, StateRecorder};
use crate::signal::SystemSignal;
use crate::wire::EngineCommand;
use vstd::arithmetic::power2::{lemma2_to64, lemma_pow2_adds, pow2};
use vstd::prelude::*;

verus! {

/// What no outcome changes: the script, what was read, and what the operator has set.
pub open spec fn keeps_its_readings(p: LuaPolicy, after: LuaPolicy) -> bool {
    &&& after.lua == p.lua
    &&& after.script_path == p.script_path
    &&& after.policy_meta == p.policy_meta
    &&& after.signal_state == p.signal_state
    &&& after.trigger_engine == p.trigger_engine
    &&& after.engine_state == p.engine_state
    &&& after.adaptation_config == p.adaptation_config
}

/// A decision is obeyed whatever the signal was. It ends a row of failures, and what it asked for
/// in vain is added to the count.
pub proof fn law_decision_is_obeyed(p: LuaPolicy, decision: Decision, signal: SystemSignal)
    ensures
        LuaPolicy::commands_of(Ok(decision), signal) == actions(decision),
        ({
            let after = p.after_outcome(Ok(decision));
            &&& after.consecutive_errors == 0
            &&& after.last_failure is None
            &&& after.permanent_fallback == p.permanent_fallback
            &&& p.dropped_actions + refused(decision) <= u64::MAX ==> after.dropped_actions
                == p.dropped_actions + refused(decision)
            &&& keeps_its_readings(p, after)
        }),
{
}

/// A failure is answered by the level of the signal alone, is counted once and kept; the third in
/// a row, and no earlier one, puts the script out of use.
pub proof fn law_failure_is_counted(p: LuaPolicy, error: mlua::Error, signal: SystemSignal)
    requires
        p.wf(),
        !p.permanent_fallback,
    ensures
        LuaPolicy::commands_of(Err(error), signal) == fallback_commands(signal),
        ({
            let after = p.after_outcome(Err(error));
            &&& after.consecutive_errors == p.consecutive_errors + 1
            &&& after.last_failure == Some(error)
            &&& after.permanent_fallback <==> p.consecutive_errors == 2
            &&& after.dropped_actions == p.dropped_actions
            &&& keeps_its_readings(p, after)
        }),
{
}

proof fn lemma_half()
    ensures
        2 * (F32 { bits: 0x3f00_0000 }).value() == pow2(149),
        4 * (F32 { bits: 0x3e80_0000 }).value() == pow2(149),
{
    reveal(F32::value);
    lemma_formats();
    lemma2_to64();
    lemma_units_at(binary32(), 125, 0x80_0000);
    lemma_pow2_adds(24, 125);
    lemma_units_at(binary32(), 124, 0x80_0000);
    lemma_pow2_adds(25, 124);
    assert(pow2(24) == 0x100_0000 && pow2(25) == 0x200_0000);
    assert(2 * (0x80_0000 * pow2(125)) == 0x100_0000 * pow2(125)) by (nonlinear_arith);
    assert(4 * (0x80_0000 * pow2(124)) == 0x200_0000 * pow2(124)) by (nonlinear_arith);
}

/// The fallback goes by the kind of a signal and the level of memory alone. Memory at the normal
/// level is answered by a release, whatever the bytes are; at the warning level by a compression to
/// 85 hundredths of the cache, at the critical level to a half of it, and at the emergency level to
/// a quarter. No other signal is answered.
pub proof fn law_fallback_goes_by_the_level(signal: SystemSignal)
    ensures
        match signal {
            SystemSignal::MemoryPressure { level, .. } => {
                let commands = fallback_commands(signal);
                let budget = commands[0]->budget.value();
                &&& commands.len() == 1
                &&& level is Normal <==> commands[0] is RestoreDefaults
                &&& !(level is Normal) <==> commands[0] is KvCompress
                &&& level is Warning ==> commands[0]->budget.is((85 * pow2(149)) as int, 100)
                &&& level is Critical ==> 2 * budget == pow2(149)
                &&& level is Emergency ==> 4 * budget == pow2(149)
            },
            _ => fallback_commands(signal).len() == 0,
        },
{
    lemma_formats();
    lemma_half();
    lemma_fractions();
}

/// A script is accepted only where its `decide` is a function; that it is none and that it could
/// not be looked up are told apart, and the reason of the latter is kept.
pub proof fn law_only_a_function_decides(found: Result<bool, mlua::Error>)
    ensures
        judged(found) is Ok <==> found == Ok::<bool, mlua::Error>(true),
        judged(found) is Err && judged(found)->Err_0 is NoDecide <==> found == Ok::<
            bool,
            mlua::Error,
        >(false),
        found is Err ==> judged(found) == Err::<(), LoadError>(LoadError::Lookup(found->Err_0)),
{
}

/// Whether an entry is shown.
pub open spec fn shows(p: LuaPolicy, entry: Shown) -> bool {
    p.shown().contains(entry)
}

/// A policy shows each pressure under its own name, the count of what was asked for in vain, and
/// the name and the version that the script gives itself.
pub proof fn law_each_pressure_is_shown_under_its_name(p: LuaPolicy)
    ensures
        shows(p, Shown::Number("pressure_gpu"@, p.pressure().gpu)),
        shows(p, Shown::Number("pressure_cpu"@, p.pressure().cpu)),
        shows(p, Shown::Number("pressure_memory"@, p.pressure().memory)),
        shows(p, Shown::Number("pressure_thermal"@, p.pressure().thermal)),
        shows(p, Shown::Number("pressure_latency"@, p.pressure().latency)),
        shows(p, Shown::Count("dropped_actions"@, p.dropped_actions)),
        p.policy_meta is Some ==> shows(
            p,
            Shown::Text("policy_name"@, p.policy_meta->Some_0.name@),
        ) && shows(p, Shown::Text("policy_version"@, p.policy_meta->Some_0.version@)),
        p.shown().len() == if p.policy_meta is Some {
            8int
        } else {
            6
        },
{
    let s = p.shown();
    assert(s[0] == Shown::Number("pressure_gpu"@, p.pressure().gpu));
    assert(s[1] == Shown::Number("pressure_cpu"@, p.pressure().cpu));
    assert(s[2] == Shown::Number("pressure_memory"@, p.pressure().memory));
    assert(s[3] == Shown::Number("pressure_thermal"@, p.pressure().thermal));
    assert(s[4] == Shown::Number("pressure_latency"@, p.pressure().latency));
    assert(s[5] == Shown::Count("dropped_actions"@, p.dropped_actions));
    if let Some(m) = p.policy_meta {
        assert(s[6] == Shown::Text("policy_name"@, m.name@));
        assert(s[7] == Shown::Text("policy_version"@, m.version@));
    }
}

/// Where the script is in use, what is sent is what it decided on all that was read, this signal
/// first; or else its machine failed, and the fallback has the say.
pub proof fn law_signal_is_read_before_it_is_decided(
    p: LuaPolicy,
    signal: SystemSignal,
    commands: Seq<EngineCommand>,
    after: LuaPolicy,
)
    requires
        p.may_process(signal, commands, after),
        !p.permanent_fallback,
    ensures
        after.signal_state == p.with_reading(signal).signal_state,
        after.trigger_engine == p.with_reading(signal).trigger_engine,
        after.last_failure is Some ==> commands == fallback_commands(signal),
        after.last_failure is None ==> after.consecutive_errors == 0 && exists|decision: Decision|
         #[trigger] actions(decision) == commands,
{
    let read = p.with_reading(signal);
    let outcome = choose|outcome: Outcome|
        #![trigger read.may_come_out(outcome, after.lua)]
        read.may_come_out(outcome, after.lua) && after == (LuaPolicy {
            lua: after.lua,
            ..read
        }).after_outcome(outcome) && commands == LuaPolicy::commands_of(outcome, signal);
    if let Ok(decision) = outcome {
        assert(actions(decision) == commands);
    }
}

/// What a script says of itself is the two strings of its global table `POLICY_META`, each under its
/// own name.
pub proof fn law_meta_is_the_scripts(lua: mlua::Lua, meta: PolicyMeta)
    requires
        may_say(lua, Some(meta)),
    ensures
        exists|t: mlua::Table| #[trigger]
            may_be_table(machine(lua), texts_run(lua), "POLICY_META"@, Ok(t)) && may_give_text(
                t,
                "name"@,
                Ok(meta.name),
            ) && may_give_text(t, "version"@, Ok(meta.version)),
{
    let table = choose|table|
        #![trigger may_be_table(machine(lua), texts_run(lua), "POLICY_META"@, table)]
        may_be_table(machine(lua), texts_run(lua), "POLICY_META"@, table) && match table {
            Ok(t) => exists|name|
                #![trigger may_give_text(t, "name"@, name)]
                may_give_text(t, "name"@, name) && match name {
                    Ok(n) => exists|version|
                        #![trigger may_give_text(t, "version"@, version)]
                        may_give_text(t, "version"@, version) && Some(meta) == match version {
                            Ok(v) => Some(PolicyMeta { name: n, version: v }),
                            Err(_) => None,
                        },
                    Err(_) => false,
                },
            Err(_) => false,
        };
    let t = table->Ok_0;
    assert(may_be_table(machine(lua), texts_run(lua), "POLICY_META"@, Ok(t)));
    let name = choose|name|
        #![trigger may_give_text(t, "name"@, name)]
        may_give_text(t, "name"@, name) && match name {
            Ok(n) => exists|version|
                #![trigger may_give_text(t, "version"@, version)]
                may_give_text(t, "version"@, version) && Some(meta) == match version {
                    Ok(v) => Some(PolicyMeta { name: n, version: v }),
                    Err(_) => None,
                },
            Err(_) => false,
        };
    let n = name->Ok_0;
    assert(may_give_text(t, "name"@, Ok(n)));
    let version = choose|version|
        #![trigger may_give_text(t, "version"@, version)]
        may_give_text(t, "version"@, version) && Some(meta) == match version {
            Ok(v) => Some(PolicyMeta { name: n, version: v }),
            Err(_) => None,
        };
    assert(may_give_text(t, "version"@, Ok(version->Ok_0)));
}

/// A script's machine has all four libraries for scripts, and four mebibytes unless no limit can be
/// set.
pub proof fn law_machines_are_alike(lua: mlua::Lua, library: Library)
    requires
        sandboxed(lua),
    ensures
        libraries(lua).contains(library),
        memory_limit(lua) == Some(0x40_0000nat) || exists|e: mlua::Error| #[trigger]
            may_fail_to_limit(0x40_0000, e),
{
    assert(libraries(lua) =~= set![
        Library::Tables,
        Library::Strings,
        Library::Maths,
        Library::Files,
    ]);
}

/// What comes of calling the script is what `decide` answered to the context, in the machine that
/// the script was loaded into; or a failure of that call, or of building the context.
pub proof fn law_outcomes_are_the_scripts(p: LuaPolicy, outcome: Outcome, lua: mlua::Lua)
    requires
        p.may_come_out(outcome, lua),
    ensures
        match outcome {
            Ok(decision) => exists|answer: Answer| #[trigger]
                may_answer(machine(p.lua), texts_run(p.lua), "decide"@, p.context(), Ok(answer))
                    && decision_read(answer, decision),
            Err(e) => may_fail_to_build(e) || may_answer(
                machine(p.lua),
                texts_run(p.lua),
                "decide"@,
                p.context(),
                Err(e),
            ),
        },
        machine(lua) == machine(p.lua),
        texts_run(lua) == texts_run(p.lua),
        outcome is Ok ==> calls_made(lua) == calls_made(p.lua).push(("decide"@, p.context())),
{
    if let Ok(decision) = outcome {
        let answer = choose|answer: Answer|
            #![trigger decision_read(answer, decision)]
            p.may_be_told(Ok(answer)) && decision_read(answer, decision);
        assert(may_answer(
            machine(p.lua),
            texts_run(p.lua),
            "decide"@,
            p.context(),
            Ok(answer),
        ));
    }
}

/// A recorder keeps every entry, in the order in which they are shown.
pub proof fn law_recorder_keeps_everything(before: Seq<Shown>, entries: Seq<Shown>)
    ensures
        visited::<StateRecorder>(before, entries) == before + entries,
    decreases entries.len(),
{
    if entries.len() == 0 {
        assert(before + entries =~= before);
    } else {
        law_recorder_keeps_everything(before, entries.drop_last());
        assert(before + entries =~= (before + entries.drop_last()).push(entries.last()));
    }
}

/// The overrun count of what is shown is the last count under its name, and what it was before
/// where there is none.
pub proof fn law_last_overrun_count_holds(
    before: u64,
    entries: Seq<Shown>,
    value: u64,
    rest: Seq<Shown>,
)
    requires
        forall|i: int|
            0 <= i < rest.len() ==> !((#[trigger] rest[i]) is Count && rest[i]->Count_0
                == "observation_overrun_count"@),
    ensures
        visited::<OverrunCollector>(before, rest) == before,
        visited::<OverrunCollector>(
            before,
            entries.push(Shown::Count("observation_overrun_count"@, value)) + rest,
        ) == value,
    decreases rest.len(),
{
    let one = entries.push(Shown::Count("observation_overrun_count"@, value));
    if rest.len() == 0 {
        assert(one + rest =~= one);
        assert(one.drop_last() =~= entries);
    } else {
        let shorter = rest.drop_last();
        assert forall|i: int| 0 <= i < shorter.len() implies !((#[trigger] shorter[i]) is Count
            && shorter[i]->Count_0 == "observation_overrun_count"@) by {
            assert(shorter[i] == rest[i]);
        }
        law_last_overrun_count_holds(before, entries, value, shorter);
        assert((one + rest).drop_last() =~= one + shorter);
        assert((one + rest).last() == rest.last());
        assert(rest.last() == rest[rest.len() - 1]);
    }
}

} // verus!
