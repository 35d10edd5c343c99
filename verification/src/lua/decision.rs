//! What a script's `decide` returned, and the commands that it stands for.
//!
//! A script may return `nil`, one action table, or an array of them:
//!
//! ```lua
//! return { type = "kv.compress", budget = 0.5 }   -- retain 50% of uncompressed KV bytes
//! return { type = "restore_defaults" }            -- release what was applied
//! return { type = "suspend" }
//! ```

use crate::float::F32;
use crate::lua::vm::{
    has_field, home, machine, may_contain, may_give_number, may_give_text, may_hold_at,
    number_field, table_entry, text_field, Answer,
};
use crate::text::same;
use crate::wire::EngineCommand;
use vstd::prelude::*;

verus! {

/// One action table, as far as it can be read.
#[derive(Debug, Clone)]
pub enum Entry {
    /// Not a table, or one without a `type` that is a string.
    Unreadable,
    /// The type and, for a compression, the budget where it is a number.
    Action { name: String, budget: Option<F32> },
}

/// What `decide` returned, as far as it can be read.
#[derive(Debug, Clone)]
pub enum Decision {
    /// `nil`.
    Nothing,
    /// Neither `nil` nor a table.
    NotATable,
    /// A table with a `type`.
    One(Entry),
    /// A table without one.
    Many(Vec<Entry>),
}

/// Why an entry is no command.
#[derive(Debug, Clone)]
pub enum ActionError {
    Unreadable,
    /// A compression without a budget that is a number.
    NoBudget,
    /// A compression whose budget is not finite, or not above zero and at most one.
    UnusableBudget(F32),
    UnknownType(String),
}

/// A budget that can be sent: finite, above zero and at most one.
///
/// One that is not finite would not reach the engine to be rejected, because it is written as
/// `null` and then the whole message does not parse. A script gets one by dividing by the
/// footprint before the first heartbeat.
pub open spec fn usable_budget(budget: F32) -> bool {
    budget.is_finite() && (F32 { bits: 0 }).lt(budget) && (F32 { bits: 0x3f80_0000 }).at_least(
        budget,
    )
}

/// The command that an entry stands for, or why it stands for none.
pub open spec fn action(entry: Entry) -> Result<EngineCommand, ActionError> {
    match entry {
        Entry::Unreadable => Err(ActionError::Unreadable),
        Entry::Action { name, budget } => if name@ == "kv.compress"@ {
            match budget {
                Some(budget) => if usable_budget(budget) {
                    Ok(EngineCommand::KvCompress { budget })
                } else {
                    Err(ActionError::UnusableBudget(budget))
                },
                None => Err(ActionError::NoBudget),
            }
        } else if name@ == "restore_defaults"@ {
            Ok(EngineCommand::RestoreDefaults)
        } else if name@ == "suspend"@ {
            Ok(EngineCommand::Suspend)
        } else if name@ == "resume"@ {
            Ok(EngineCommand::Resume)
        } else {
            Err(ActionError::UnknownType(name))
        },
    }
}

pub fn parse_single_action(entry: &Entry) -> (r: Result<EngineCommand, ActionError>)
    ensures
        r == action(*entry),
{
    match entry {
        Entry::Unreadable => Err(ActionError::Unreadable),
        Entry::Action { name, budget } => {
            if same(name.as_str(), "kv.compress") {
                match *budget {
                    Some(budget) => {
                        let zero: F32 = F32 { bits: 0 };
                        let one: F32 = F32 { bits: 0x3f80_0000 };
                        if budget.is_finite() && zero.lt(budget) && one.at_least(budget) {
                            Ok(EngineCommand::KvCompress { budget })
                        } else {
                            Err(ActionError::UnusableBudget(budget))
                        }
                    },
                    None => Err(ActionError::NoBudget),
                }
            } else if same(name.as_str(), "restore_defaults") {
                Ok(EngineCommand::RestoreDefaults)
            } else if same(name.as_str(), "suspend") {
                Ok(EngineCommand::Suspend)
            } else if same(name.as_str(), "resume") {
                Ok(EngineCommand::Resume)
            } else {
                Err(ActionError::UnknownType(name.clone()))
            }
        },
    }
}

/// The commands that entries stand for, in their order.
pub open spec fn actions_of(entries: Seq<Entry>) -> Seq<EngineCommand>
    decreases entries.len(),
{
    if entries.len() == 0 {
        Seq::empty()
    } else {
        match action(entries.last()) {
            Ok(command) => actions_of(entries.drop_last()).push(command),
            Err(_) => actions_of(entries.drop_last()),
        }
    }
}

/// How many entries stand for no command.
pub open spec fn refused_of(entries: Seq<Entry>) -> nat
    decreases entries.len(),
{
    if entries.len() == 0 {
        0
    } else {
        refused_of(entries.drop_last()) + if action(entries.last()) is Ok {
            0nat
        } else {
            1nat
        }
    }
}

/// The entries of a decision.
pub open spec fn entries_of(decision: Decision) -> Seq<Entry> {
    match decision {
        Decision::One(entry) => seq![entry],
        Decision::Many(entries) => entries@,
        _ => Seq::empty(),
    }
}

/// The commands of a decision. `nil` and an empty table both mean "no action".
pub open spec fn actions(decision: Decision) -> Seq<EngineCommand> {
    actions_of(entries_of(decision))
}

/// How much of a decision this manager cannot express. What is neither `nil` nor a table counts
/// as one.
pub open spec fn refused(decision: Decision) -> nat {
    if decision is NotATable {
        1
    } else {
        refused_of(entries_of(decision))
    }
}

/// A counter that starts again after the last number that it can hold.
pub open spec fn counted(count: u64, more: nat) -> u64 {
    ((count + more) % 0x1_0000_0000_0000_0000) as u64
}

/// Turns a decision into commands. What cannot be expressed is left out and counted.
pub fn parse_actions(decision: &Decision, dropped: &mut u64) -> (r: Vec<EngineCommand>)
    ensures
        r@ == actions(*decision),
        *final(dropped) == counted(*old(dropped), refused(*decision)),
{
    let mut commands: Vec<EngineCommand> = Vec::new();
    match decision {
        Decision::Nothing => {},
        Decision::NotATable => {
            *dropped = dropped.wrapping_add(1);
        },
        Decision::One(entry) => {
            proof {
                let s = seq![*entry];
                assert(s.drop_last() == Seq::<Entry>::empty());
                assert(actions_of(s.drop_last()) == Seq::<EngineCommand>::empty());
                assert(refused_of(s.drop_last()) == 0);
                assert(s.last() == *entry);
            }
            match parse_single_action(entry) {
                Ok(command) => commands.push(command),
                Err(_) => {
                    *dropped = dropped.wrapping_add(1);
                },
            }
        },
        Decision::Many(entries) => {
            let ghost before = *dropped;
            let mut i: usize = 0;
            while i < entries.len()
                invariant
                    i <= entries.len(),
                    commands@ == actions_of(entries@.take(i as int)),
                    *dropped == counted(before, refused_of(entries@.take(i as int))),
                decreases entries.len() - i,
            {
                proof {
                    let s = entries@.take(i as int + 1);
                    assert(s.drop_last() == entries@.take(i as int));
                    assert(s.last() == entries@[i as int]);
                }
                match parse_single_action(&entries[i]) {
                    Ok(command) => commands.push(command),
                    Err(_) => {
                        *dropped = dropped.wrapping_add(1);
                    },
                }
                i = i + 1;
            }
            proof {
                assert(entries@.take(i as int) == entries@);
            }
        },
    }
    commands
}

/// Whether a budget can be read so: the number under `budget`, in the precision of a budget.
pub open spec fn budget_read(table: mlua::Table, budget: Option<F32>) -> bool {
    exists|number|
        #![trigger may_give_number(table, "budget"@, number)]
        may_give_number(table, "budget"@, number) && budget == match number {
            Ok(n) => Some(n.narrow()),
            Err(_) => None,
        }
}

/// Whether a table can be read as an entry. Its type is the string under `type`; a budget is
/// read only of a compression.
pub open spec fn entry_read(table: mlua::Table, entry: Entry) -> bool {
    exists|name|
        #![trigger may_give_text(table, "type"@, name)]
        may_give_text(table, "type"@, name) && match (name, entry) {
            (Ok(n), Entry::Action { name, budget }) => name == n && if n@ == "kv.compress"@ {
                budget_read(table, budget)
            } else {
                budget is None
            },
            (Err(_), Entry::Unreadable) => true,
            _ => false,
        }
}

/// Whether an array can be read as these entries, one for one from the first index on. It ends
/// before the first entry that is missing, or where the indices do.
pub open spec fn array_read(table: mlua::Table, entries: Seq<Entry>) -> bool {
    &&& forall|i: int| 0 <= i < entries.len() ==> item_read(table, i + 1, #[trigger] entries[i])
    &&& may_hold_at(table, entries.len() + 1, None) || entries.len() + 1 == usize::MAX
}

/// Whether what stands at an index of an array can be read as an entry.
pub open spec fn item_read(table: mlua::Table, index: int, entry: Entry) -> bool {
    exists|item|
        #![trigger may_hold_at(table, index as nat, Some(item))]
        may_hold_at(table, index as nat, Some(item)) && match item {
            Ok(t) => entry_read(t, entry),
            Err(_) => entry is Unreadable,
        }
}

/// Whether an answer can be read as a decision. A table with a `type` is one action; any other,
/// and one that cannot be asked, is an array.
pub open spec fn decision_read(answer: Answer, decision: Decision) -> bool {
    match (answer, decision) {
        (Answer::Nil, Decision::Nothing) => true,
        (Answer::Other, Decision::NotATable) => true,
        (Answer::Table(table), Decision::One(entry)) => {
            may_contain(table, "type"@, Ok(true)) && entry_read(table, entry)
        },
        (Answer::Table(table), Decision::Many(entries)) => {
            &&& exists|there|
                #![trigger may_contain(table, "type"@, there)]
                may_contain(table, "type"@, there) && there != Ok::<bool, mlua::Error>(true)
            &&& array_read(table, entries@)
        },
        _ => false,
    }
}

/// Reads one action table.
fn read_entry(lua: &mlua::Lua, table: &mlua::Table) -> (r: Entry)
    requires
        home(*table) == machine(*lua),
    ensures
        entry_read(*table, r),
{
    match text_field(lua, table, "type") {
        Ok(name) => {
            let budget: Option<F32> = if same(name.as_str(), "kv.compress") {
                match number_field(lua, table, "budget") {
                    Ok(number) => Some(number.narrow()),
                    Err(_) => None,
                }
            } else {
                None
            };
            Entry::Action { name, budget }
        },
        Err(_) => Entry::Unreadable,
    }
}

/// Reads an array of action tables, one at a time: of a long one no more than one is held.
fn read_array(lua: &mlua::Lua, table: &mlua::Table) -> (r: Vec<Entry>)
    requires
        home(*table) == machine(*lua),
    ensures
        array_read(*table, r@),
{
    let mut entries: Vec<Entry> = Vec::new();
    let mut index: usize = 1;
    while index < usize::MAX
        invariant
            1 <= index,
            entries@.len() + 1 == index,
            home(*table) == machine(*lua),
            forall|i: int|
                0 <= i < entries@.len() ==> item_read(*table, i + 1, #[trigger] entries@[i]),
        decreases usize::MAX - index,
    {
        match table_entry(lua, table, index) {
            Some(Ok(entry)) => entries.push(read_entry(lua, &entry)),
            Some(Err(_)) => entries.push(Entry::Unreadable),
            None => return entries,
        }
        index = index + 1;
    }
    entries
}

/// Reads what `decide` returned.
pub(crate) fn read_decision(lua: &mlua::Lua, answer: Answer) -> (r: Decision)
    requires
        answer is Table ==> home(answer->Table_0) == machine(*lua),
    ensures
        decision_read(answer, r),
{
    match answer {
        Answer::Nil => Decision::Nothing,
        Answer::Other => Decision::NotATable,
        Answer::Table(table) => {
            let there = has_field(lua, &table, "type");
            if let Ok(true) = there {
                Decision::One(read_entry(lua, &table))
            } else {
                Decision::Many(read_array(lua, &table))
            }
        },
    }
}

proof fn lemma_actions_of(entries: Seq<Entry>)
    ensures
        actions_of(entries).len() + refused_of(entries) == entries.len(),
        forall|i: int|
            0 <= i < actions_of(entries).len() ==> match #[trigger] actions_of(entries)[i] {
                EngineCommand::KvCompress { budget } => usable_budget(budget),
                _ => true,
            },
    decreases entries.len(),
{
    if entries.len() > 0 {
        lemma_actions_of(entries.drop_last());
    }
}

/// Whatever a script returns, every compression that comes of it has a budget that can be sent.
pub proof fn law_budgets_are_usable(decision: Decision)
    ensures
        forall|i: int|
            0 <= i < actions(decision).len() ==> match #[trigger] actions(decision)[i] {
                EngineCommand::KvCompress { budget } => usable_budget(budget),
                _ => true,
            },
{
    lemma_actions_of(entries_of(decision));
}

/// Every entry becomes a command or is counted as refused: none is lost.
pub proof fn law_no_entry_is_lost(decision: Decision)
    requires
        !(decision is NotATable),
    ensures
        actions(decision).len() + refused(decision) == entries_of(decision).len(),
{
    lemma_actions_of(entries_of(decision));
}

} // verus!
