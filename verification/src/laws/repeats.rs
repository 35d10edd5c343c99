//! What counts as a repeat, and what becomes of one.

use crate::float::order::law_minus64_follows_its_first;
use crate::float::signed::law_order_is_of_values;
use crate::float::{binary32, lemma_formats, F32, F64};
use crate::pipeline::Passed;
use crate::wire::{same_commands, EngineCommand};
use vstd::prelude::*;

verus! {

/// Two commands are the same only where they are of the same kind, and two compressions exactly
/// where their budgets are numbers of the same value.
pub proof fn law_same_commands_are_of_one_kind(a: EngineCommand, b: EngineCommand)
    ensures
        a.same(b) ==> (a is KvCompress <==> b is KvCompress) && (a is RestoreDefaults
            <==> b is RestoreDefaults) && (a is Suspend <==> b is Suspend) && (a is Resume
            <==> b is Resume),
        a is RestoreDefaults && b is RestoreDefaults ==> a.same(b),
        a is Suspend && b is Suspend ==> a.same(b),
        a is Resume && b is Resume ==> a.same(b),
        a is KvCompress && b is KvCompress ==> (a.same(b) <==> !a->budget.is_nan()
            && !b->budget.is_nan() && a->budget.value() == b->budget.value()),
{
    lemma_formats();
    if a is KvCompress && b is KvCompress {
        reveal(F32::value);
        law_order_is_of_values(binary32(), a->budget.signed(), b->budget.signed());
    }
}

/// A directive whose command at any place is of another kind than that of the last one that passed
/// passes, and so does one of another length, at any time.
pub proof fn law_another_kind_passes(
    p: Passed,
    last: Seq<EngineCommand>,
    commands: Seq<EngineCommand>,
    i: int,
    now_secs: F64,
)
    requires
        p.last_commands == Some(last),
        last.len() != commands.len() || 0 <= i < commands.len() && {
            ||| last[i] is KvCompress && !(commands[i] is KvCompress)
            ||| last[i] is RestoreDefaults && !(commands[i] is RestoreDefaults)
            ||| last[i] is Suspend && !(commands[i] is Suspend)
            ||| last[i] is Resume && !(commands[i] is Resume)
            ||| last[i] is KvCompress && commands[i] is KvCompress && last[i]->budget.value()
                != commands[i]->budget.value()
        },
    ensures
        p.lets_pass(commands, now_secs),
{
    if last.len() == commands.len() {
        law_same_commands_are_of_one_kind(last[i], commands[i]);
        if same_commands(last, commands) {
            assert(last[i].same(commands[i]));
        }
    }
}

/// A directive that repeats the last one that passed, command for command, is held back exactly
/// until the cooldown has gone by.
pub proof fn law_a_repeat_is_held_back(
    p: Passed,
    last: Seq<EngineCommand>,
    sent_at: F64,
    commands: Seq<EngineCommand>,
    now_secs: F64,
)
    requires
        p.last_commands == Some(last),
        p.last_sent_at == Some(sent_at),
        last.len() == commands.len(),
        forall|i: int|
            0 <= i < last.len() ==> match ((#[trigger] last[i]), commands[i]) {
                (
                    EngineCommand::KvCompress { budget: x },
                    EngineCommand::KvCompress { budget: y },
                ) => !x.is_nan() && !y.is_nan() && x.value() == y.value(),
                (EngineCommand::RestoreDefaults, EngineCommand::RestoreDefaults) => true,
                (EngineCommand::Suspend, EngineCommand::Suspend) => true,
                (EngineCommand::Resume, EngineCommand::Resume) => true,
                _ => false,
            },
    ensures
        p.lets_pass(commands, now_secs) <==> now_secs.minus(sent_at).at_least(p.cooldown_secs),
{
    assert forall|i: int| 0 <= i < last.len() implies (#[trigger] last[i]).same(commands[i]) by {
        law_same_commands_are_of_one_kind(last[i], commands[i]);
    }
}

/// What passes is remembered with its time, and what is held back leaves what was remembered as it
/// was; the cooldown is always the same.
pub proof fn law_what_passes_is_remembered(
    p: Passed,
    commands: Seq<EngineCommand>,
    now_secs: F64,
)
    ensures
        p.lets_pass(commands, now_secs) ==> p.after(commands, now_secs).last_commands == Some(
            commands,
        ) && p.after(commands, now_secs).last_sent_at == Some(now_secs),
        !p.lets_pass(commands, now_secs) ==> p.after(commands, now_secs) == p,
        p.after(commands, now_secs).cooldown_secs == p.cooldown_secs,
{
}

/// To wait longer never holds back what would have passed.
pub proof fn law_waiting_never_holds_back(
    p: Passed,
    commands: Seq<EngineCommand>,
    now_secs: F64,
    later_secs: F64,
)
    requires
        p.lets_pass(commands, now_secs),
        now_secs.is_finite(),
        later_secs.is_finite(),
        later_secs.at_least(now_secs),
        p.last_sent_at is Some ==> p.last_sent_at->Some_0.is_finite(),
    ensures
        p.lets_pass(commands, later_secs),
{
    if let Some(t) = p.last_sent_at {
        law_minus64_follows_its_first(now_secs, later_secs, t);
    }
}

} // verus!
