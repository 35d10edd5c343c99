//! What stands for what: messages, records and commands against the values they hold.

use crate::emitter::dbus::{DbusArg, DbusMessage, DbusValue};
use crate::laws::repeats::law_same_commands_are_of_one_kind;
use crate::lua::vm::{may_be_function, may_run};
use crate::lua_policy::{
    judged, may_load, may_load_registered, may_set_up, LoadError, LuaPolicy,
};
use crate::mock_engine::{applied_all, EngineState_};
use crate::mock_manager::{Playing, ProtocolRun, RunAction, RunPhase, Stage, Task};
use crate::pipeline::{
    commands_in, DirectiveDeduplicator, PolicyStrategy, PolicyVisitor, Record, Shown,
    StateRecorder,
};
use crate::wire::{CommandResult, EngineCommand, EngineDirective, EngineMessage};
use vstd::prelude::*;
use vstd::std_specs::cmp::PartialEqSpec;

verus! {

/// An argument on the bus says the value that it holds, and a message all of its arguments in their
/// order.
pub proof fn law_arguments_say_what_they_hold(arg: DbusArg, message: DbusMessage, i: int)
    requires
        0 <= i < message.args@.len(),
    ensures
        match arg {
            DbusArg::Text(s) => arg@ == DbusValue::Text(s@),
            DbusArg::Unsigned(n) => arg@ == DbusValue::Unsigned(n),
            DbusArg::Word(n) => arg@ == DbusValue::Word(n),
            DbusArg::Signed(n) => arg@ == DbusValue::Signed(n),
            DbusArg::Flag(b) => arg@ == DbusValue::Flag(b),
            DbusArg::Number(x) => arg@ == DbusValue::Number(x),
        },
        message@.member == message.member@,
        message@.args.len() == message.args@.len(),
        message@.args[i] == message.args@[i]@,
{
}

/// A record is the entry that it was made of, and a recorder has collected its records.
pub proof fn law_records_are_their_entries(record: Record, recorder: StateRecorder, i: int)
    requires
        0 <= i < recorder.records@.len(),
    ensures
        match record {
            Record::Number(key, value) => record@ == Shown::Number(key@, value),
            Record::Count(key, value) => record@ == Shown::Count(key@, value),
            Record::Text(key, value) => record@ == Shown::Text(key@, value@),
        },
        recorder.collected().len() == recorder.records@.len(),
        recorder.collected()[i] == recorder.records@[i]@,
{
}

/// What a deduplicator remembers is what it holds.
pub proof fn law_deduplicators_remember_what_they_hold(d: DirectiveDeduplicator)
    ensures
        d.last_commands is Some <==> d@.last_commands is Some,
        d.last_commands is Some ==> d@.last_commands->Some_0 == d.last_commands->Some_0@,
        d@.last_sent_at == d.last_sent_at,
        d@.cooldown_secs == d.cooldown_secs,
{
}

/// The commands of a directive are all of its commands, and no directive has none.
pub proof fn law_commands_of_a_directive(d: EngineDirective)
    ensures
        commands_in(Some(d)) == d.commands@,
        commands_in(None).len() == 0,
{
}

/// Commands compare equal exactly where they are of one kind, and compressions where their budgets
/// are also numbers of the same value.
pub proof fn law_equal_commands_are_of_one_kind(a: EngineCommand, b: EngineCommand)
    ensures
        a.eq_spec(&b) <==> match (a, b) {
            (
                EngineCommand::KvCompress { budget: x },
                EngineCommand::KvCompress { budget: y },
            ) => !x.is_nan() && !y.is_nan() && x.value() == y.value(),
            (EngineCommand::RestoreDefaults, EngineCommand::RestoreDefaults) => true,
            (EngineCommand::Suspend, EngineCommand::Suspend) => true,
            (EngineCommand::Resume, EngineCommand::Resume) => true,
            _ => false,
        },
{
    law_same_commands_are_of_one_kind(a, b);
}

/// The mode is critical exactly where memory is low, a warning exactly for heat or slow tokens
/// without that, and normal where nothing is set off; no reading but the triggers has a say.
pub proof fn law_mode_is_of_the_triggers(p: LuaPolicy)
    ensures
        p.current_mode() is Critical <==> p.trigger_engine.trigger.mem_low,
        p.current_mode() is Normal <==> !p.trigger_engine.trigger.mem_low
            && !p.trigger_engine.trigger.temp_high && !p.trigger_engine.trigger.tbt_degraded,
{
}

/// Every heartbeat is taken in and replaces the one before, and a response changes nothing; to take
/// an observation back changes nothing either.
pub proof fn law_every_heartbeat_is_taken_in(p: LuaPolicy, msg: EngineMessage)
    ensures
        match msg {
            EngineMessage::Heartbeat(st) => p.updated(msg).engine_state == Some(st)
                && p.updated(msg).trigger_engine == p.trigger_engine.with_tbt_ms(
                st.tbt_ms.widen(),
            ) && p.updated(msg).signal_state == p.signal_state && p.updated(msg).lua == p.lua
                && p.updated(msg).permanent_fallback == p.permanent_fallback
                && p.updated(msg).consecutive_errors == p.consecutive_errors
                && p.updated(msg).dropped_actions == p.dropped_actions,
            EngineMessage::Response(_) => p.updated(msg) == p,
        },
        p.uncounted() == p,
{
}

/// A script whose text failed did so where it was run.
pub proof fn law_failed_texts_were_run<R: Fn(&mlua::Lua) -> Result<(), mlua::Error>>(
    source: Seq<char>,
    path: Seq<char>,
    register: R,
    e: mlua::Error,
)
    requires
        may_set_up(source, path, register, Err(LoadError::Evaluation(e))),
    ensures
        exists|m: int| #[trigger] may_run(m, source, path, Err(e)),
{
    let error = LoadError::Evaluation(e);
    let m = choose|m: int| #[trigger]
        may_load_registered(m, source, path, register, Err(error));
    let ran = lemma_ran(m, source, path, error);
    match ran {
        Ok(_) => {
            let _found = lemma_looked_up(m, source, path, error);
        },
        Err(other) => {
            assert(may_run(m, source, path, Err(other)));
        },
    }
}

/// A script that is refused for want of `decide` ran, and its `decide` was then no function.
pub proof fn law_scripts_without_decide_ran<R: Fn(&mlua::Lua) -> Result<(), mlua::Error>>(
    source: Seq<char>,
    path: Seq<char>,
    register: R,
)
    requires
        may_set_up(source, path, register, Err(LoadError::NoDecide)),
    ensures
        exists|m: int, ran: Result<(), mlua::Error>| #[trigger]
            may_run(m, source, path, ran) && ran is Ok && may_be_function(
                m,
                seq![(source, path)],
                "decide"@,
                Ok(false),
            ),
{
    let error = LoadError::NoDecide;
    let m = choose|m: int| #[trigger]
        may_load_registered(m, source, path, register, Err(error));
    let ran = lemma_ran(m, source, path, error);
    let found = lemma_looked_up(m, source, path, error);
    assert(found == Ok::<bool, mlua::Error>(false));
}

proof fn lemma_ran(m: int, source: Seq<char>, path: Seq<char>, error: LoadError) -> (ran: Result<
    (),
    mlua::Error,
>)
    requires
        may_load(m, source, path, Err(error)),
    ensures
        may_run(m, source, path, ran),
        ran is Err ==> error == LoadError::Evaluation(ran->Err_0),
        ran is Ok ==> exists|found|
            #![trigger may_be_function(m, seq![(source, path)], "decide"@, found)]
            may_be_function(m, seq![(source, path)], "decide"@, found)
                && Err::<(), LoadError>(error) == judged(found),
{
    choose|ran|
        #![trigger may_run(m, source, path, ran)]
        may_run(m, source, path, ran) && match ran {
            Ok(()) => exists|found|
                #![trigger may_be_function(m, seq![(source, path)], "decide"@, found)]
                may_be_function(m, seq![(source, path)], "decide"@, found)
                    && Err::<(), LoadError>(error) == judged(found),
            Err(e) => Err::<(), LoadError>(error) == Err::<(), LoadError>(
                LoadError::Evaluation(e),
            ),
        }
}

proof fn lemma_looked_up(
    m: int,
    source: Seq<char>,
    path: Seq<char>,
    error: LoadError,
) -> (found: Result<bool, mlua::Error>)
    requires
        exists|found|
            #![trigger may_be_function(m, seq![(source, path)], "decide"@, found)]
            may_be_function(m, seq![(source, path)], "decide"@, found)
                && Err::<(), LoadError>(error) == judged(found),
    ensures
        may_be_function(m, seq![(source, path)], "decide"@, found),
        Err::<(), LoadError>(error) == judged(found),
{
    choose|found|
        #![trigger may_be_function(m, seq![(source, path)], "decide"@, found)]
        may_be_function(m, seq![(source, path)], "decide"@, found)
            && Err::<(), LoadError>(error) == judged(found)
}

/// The commands of a directive are applied in their order, each to what the one before left, and
/// each is answered at its own place.
pub proof fn law_commands_are_applied_in_order(
    states: Seq<EngineState_>,
    commands: Seq<EngineCommand>,
    results: Seq<CommandResult>,
    i: int,
)
    requires
        applied_all(states, commands, results),
        0 <= i < commands.len(),
    ensures
        results.len() == commands.len(),
        states.len() == commands.len() + 1,
        states[i].applied(commands[i], states[i + 1], results[i]),
{
    assert(results[i] == results[i]);
}

/// A command waits for as long as it says before it is sent, once, and one without a wait is sent
/// at once.
pub proof fn law_waits_come_once(p: Playing)
    requires
        p.wf(),
        p.index < p.commands@.len(),
    ensures
        p.must_wait() <==> p.stage == Stage::Start && p.commands@[p.index as int].delay_ms > 0,
{
}

/// A run watches for the time that was asked for before it plays, and for two seconds after; what
/// it plays is its task, and only where there is one.
pub proof fn law_runs_watch_before_and_after(run: ProtocolRun)
    ensures
        run.phase == RunPhase::Waiting ==> run.action() == RunAction::Watch(run.wait_secs)
            && run.advanced().phase == RunPhase::Acting,
        run.phase == RunPhase::Acting && run.task != Task::Missing ==> run.action()
            == RunAction::Play(run.task) && run.advanced().phase == RunPhase::Observing,
        run.phase == RunPhase::Acting && run.task == Task::Missing ==> run.action()
            == RunAction::Refuse && run.advanced().phase == RunPhase::Over,
        run.phase == RunPhase::Observing ==> run.action() == RunAction::Watch(2)
            && run.advanced().phase == RunPhase::Over,
        run.phase == RunPhase::Over ==> run.action() == RunAction::Finish && run.advanced() == run,
        run.advanced().task == run.task,
        run.advanced().wait_secs == run.wait_secs,
{
}

} // verus!
