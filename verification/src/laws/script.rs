//! What a script asks for is what is done.

use crate::float::meaning::lemma_order32;
use crate::float::{lemma_formats, F32, F64};
use crate::lua::decision::{
    action, actions, actions_of, budget_read, counted, decision_read, entry_read, item_read,
    refused, refused_of, Decision, Entry,
};
use crate::lua::vm::{may_contain, may_give_number, may_give_text, may_hold_at, Answer};
use crate::wire::EngineCommand;
use vstd::arithmetic::power2::pow2;
use vstd::prelude::*;

verus! {

/// A budget above zero and at most one.
pub open spec fn within_budget(x: F32) -> bool {
    x.is_finite() && 0 < x.value() <= pow2(149)
}

proof fn lemma_within_budget(x: F32)
    ensures
        x.is_finite() ==> ((F32 { bits: 0 }).lt(x) <==> 0 < x.value()),
        x.is_finite() ==> ((F32 { bits: 0x3f80_0000 }).at_least(x) <==> x.value() <= pow2(149)),
{
    lemma_formats();
    if x.is_finite() {
        lemma_order32(F32 { bits: 0 }, x);
        lemma_order32(F32 { bits: 0x3f80_0000 }, x);
    }
}

/// A compression with a budget above zero and at most one carries exactly that budget. Any other
/// budget, and a missing one, makes no command.
pub proof fn law_compression_carries_its_budget(name: String, budget: Option<F32>)
    requires
        name@ == "kv.compress"@,
    ensures
        match budget {
            Some(x) => if within_budget(x) {
                action(Entry::Action { name, budget }) == Ok::<_, crate::lua::decision::ActionError>(
                    EngineCommand::KvCompress { budget: x },
                )
            } else {
                action(Entry::Action { name, budget }) is Err
            },
            None => action(Entry::Action { name, budget }) is Err,
        },
{
    if let Some(x) = budget {
        lemma_within_budget(x);
    }
}

proof fn lemma_action_names()
    ensures
        "kv.compress"@.len() == 11,
        "restore_defaults"@.len() == 16,
        "suspend"@.len() == 7,
        "resume"@.len() == 6,
{
    reveal_strlit("kv.compress");
    reveal_strlit("restore_defaults");
    reveal_strlit("suspend");
    reveal_strlit("resume");
}

/// Each command comes of its own type and of no other, whatever else the entry holds, and a
/// compression's budget is the one of its entry.
pub proof fn law_each_command_has_its_type(entry: Entry)
    ensures
        match entry {
            Entry::Action { name, budget } => {
                &&& action(entry) is Ok && action(entry)->Ok_0 is RestoreDefaults <==> name@
                    == "restore_defaults"@
                &&& action(entry) is Ok && action(entry)->Ok_0 is Suspend <==> name@ == "suspend"@
                &&& action(entry) is Ok && action(entry)->Ok_0 is Resume <==> name@ == "resume"@
                &&& action(entry) is Ok && action(entry)->Ok_0 is KvCompress ==> {
                    &&& name@ == "kv.compress"@
                    &&& budget == Some(action(entry)->Ok_0->budget)
                    &&& within_budget(action(entry)->Ok_0->budget)
                }
            },
            Entry::Unreadable => action(entry) is Err,
        },
{
    lemma_action_names();
    if let Entry::Action { name, budget } = entry {
        if let Some(x) = budget {
            lemma_within_budget(x);
        }
    }
}

/// Two lists one after the other give their commands one after the other, and their refusals add
/// up: no entry has a say in what another one gives.
pub proof fn law_entries_are_read_one_by_one(a: Seq<Entry>, b: Seq<Entry>)
    ensures
        actions_of(a + b) == actions_of(a) + actions_of(b),
        refused_of(a + b) == refused_of(a) + refused_of(b),
    decreases b.len(),
{
    if b.len() == 0 {
        assert(a + b =~= a);
        assert(actions_of(a) + actions_of(b) =~= actions_of(a));
    } else {
        law_entries_are_read_one_by_one(a, b.drop_last());
        assert((a + b).drop_last() =~= a + b.drop_last());
        assert((a + b).last() == b.last());
        assert(actions_of(a + b) =~= actions_of(a) + actions_of(b));
    }
}

/// One entry gives its command and is not refused, or gives none and is refused once.
pub proof fn law_one_entry(entry: Entry)
    ensures
        match action(entry) {
            Ok(command) => actions_of(seq![entry]) == seq![command] && refused_of(seq![entry]) == 0,
            Err(_) => actions_of(seq![entry]).len() == 0 && refused_of(seq![entry]) == 1,
        },
{
    assert(seq![entry].drop_last() =~= Seq::<Entry>::empty());
    assert(actions_of(Seq::<Entry>::empty()) =~= Seq::<EngineCommand>::empty());
    assert(refused_of(Seq::<Entry>::empty()) == 0);
    if let Ok(command) = action(entry) {
        assert(actions_of(seq![entry]) =~= seq![command]);
    }
}

/// `nil` asks for nothing; what is neither `nil` nor a table asks for nothing and is refused once;
/// one action is a list of one.
pub proof fn law_shapes_of_a_decision(entry: Entry, list: Vec<Entry>)
    requires
        list@ == seq![entry],
    ensures
        actions(Decision::Nothing).len() == 0,
        refused(Decision::Nothing) == 0,
        actions(Decision::NotATable).len() == 0,
        refused(Decision::NotATable) == 1,
        actions(Decision::One(entry)) == actions(Decision::Many(list)),
        refused(Decision::One(entry)) == refused(Decision::Many(list)),
        actions(Decision::Many(list)) == actions_of(list@),
{
}

/// A list of usable entries gives as many commands, the one at each place that of the entry there.
pub proof fn law_usable_lists_are_obeyed_in_order(entries: Seq<Entry>)
    requires
        forall|i: int| 0 <= i < entries.len() ==> action(#[trigger] entries[i]) is Ok,
    ensures
        actions_of(entries).len() == entries.len(),
        refused_of(entries) == 0,
        forall|i: int|
            0 <= i < entries.len() ==> #[trigger] actions_of(entries)[i] == action(
                entries[i],
            )->Ok_0,
    decreases entries.len(),
{
    if entries.len() > 0 {
        let before = entries.drop_last();
        assert forall|i: int| 0 <= i < before.len() implies action(#[trigger] before[i]) is Ok by {
            assert(before[i] == entries[i]);
        }
        law_usable_lists_are_obeyed_in_order(before);
        assert(entries.last() == entries[entries.len() - 1]);
        assert forall|i: int| 0 <= i < entries.len() implies #[trigger] actions_of(entries)[i]
            == action(entries[i])->Ok_0 by {
            if i < before.len() {
                assert(before[i] == entries[i]);
                assert(actions_of(entries)[i] == actions_of(before)[i]);
            }
        }
    }
}

/// A compression that is read of a script's table has the type that the table gives, and a budget
/// that is the number under `budget`, as near as the precision of a budget has it.
pub proof fn law_budget_is_the_scripts(table: mlua::Table, entry: Entry)
    requires
        entry_read(table, entry),
        action(entry) is Ok,
        action(entry)->Ok_0 is KvCompress,
    ensures
        exists|name: String| #[trigger]
            may_give_text(table, "type"@, Ok(name)) && name@ == "kv.compress"@,
        exists|number: F64| #[trigger]
            may_give_number(table, "budget"@, Ok(number)) && (number.is_finite()
                ==> action(entry)->Ok_0->budget.is(number.value(), pow2(925))),
{
    law_each_command_has_its_type(entry);
    let name = choose|name|
        #![trigger may_give_text(table, "type"@, name)]
        may_give_text(table, "type"@, name) && match (name, entry) {
            (Ok(n), Entry::Action { name, budget }) => name == n && if n@ == "kv.compress"@ {
                budget_read(table, budget)
            } else {
                budget is None
            },
            (Err(_), Entry::Unreadable) => true,
            _ => false,
        };
    if let Entry::Action { name: n, budget } = entry {
        assert(may_give_text(table, "type"@, Ok(n)));
        assert(budget_read(table, budget));
        let number = choose|number|
            #![trigger may_give_number(table, "budget"@, number)]
            may_give_number(table, "budget"@, number) && budget == match number {
                Ok(n) => Some(n.narrow()),
                Err(_) => None,
            };
        let x = number->Ok_0;
        assert(may_give_number(table, "budget"@, Ok(x)));
        if x.is_finite() {
            crate::float::meaning::law_narrow(x);
        }
    }
}

/// What a decision is goes by what the script answered: `nil` is nothing, a table with a `type` is
/// one action, any other table a list, and all else no table.
pub proof fn law_shape_follows_the_answer(answer: Answer, decision: Decision)
    requires
        decision_read(answer, decision),
    ensures
        decision is Nothing <==> answer is Nil,
        decision is NotATable <==> answer is Other,
        decision is One ==> answer is Table && may_contain(answer->Table_0, "type"@, Ok(true)),
        decision is Many ==> answer is Table && (may_contain(answer->Table_0, "type"@, Ok(false))
            || exists|e: mlua::Error| #[trigger]
            may_contain(answer->Table_0, "type"@, Err(e))),
{
    if let (Answer::Table(table), Decision::Many(entries)) = (answer, decision) {
        let there = choose|there|
            #![trigger may_contain(table, "type"@, there)]
            may_contain(table, "type"@, there) && there != Ok::<bool, mlua::Error>(true);
        if let Ok(t) = there {
            assert(!t);
            assert(may_contain(table, "type"@, Ok(false)));
        } else {
            assert(may_contain(table, "type"@, Err(there->Err_0)));
        }
    }
}

/// The entry at each place of a list is what the script's table holds at the index that is one more,
/// and the list ends where the table holds nothing more.
pub proof fn law_lists_are_read_from_one(table: mlua::Table, entries: Vec<Entry>, i: int)
    requires
        decision_read(Answer::Table(table), Decision::Many(entries)),
        0 <= i < entries@.len(),
    ensures
        entries@[i] is Action ==> exists|t: mlua::Table| #[trigger]
            may_hold_at(table, (i + 1) as nat, Some(Ok(t))) && entry_read(t, entries@[i]),
        entries@.len() + 1 < usize::MAX ==> may_hold_at(table, entries@.len() + 1, None),
{
    assert(item_read(table, i + 1, entries@[i]));
    let item = choose|item|
        #![trigger may_hold_at(table, (i + 1) as nat, Some(item))]
        may_hold_at(table, (i + 1) as nat, Some(item)) && match item {
            Ok(t) => entry_read(t, entries@[i]),
            Err(_) => entries@[i] is Unreadable,
        };
    if let Ok(t) = item {
        assert(may_hold_at(table, (i + 1) as nat, Some(Ok(t))));
    }
}

/// The type of an entry is the string that its table holds under `type`, and an entry can be read
/// only where there is one.
pub proof fn law_types_are_the_scripts(table: mlua::Table, entry: Entry)
    requires
        entry_read(table, entry),
    ensures
        match entry {
            Entry::Action { name, .. } => may_give_text(table, "type"@, Ok(name)),
            Entry::Unreadable => exists|e: mlua::Error| #[trigger]
                may_give_text(table, "type"@, Err(e)),
        },
{
    let name = choose|name|
        #![trigger may_give_text(table, "type"@, name)]
        may_give_text(table, "type"@, name) && match (name, entry) {
            (Ok(n), Entry::Action { name, budget }) => name == n && if n@ == "kv.compress"@ {
                budget_read(table, budget)
            } else {
                budget is None
            },
            (Err(_), Entry::Unreadable) => true,
            _ => false,
        };
    if let Err(e) = name {
        assert(may_give_text(table, "type"@, Err(e)));
    } else {
        assert(may_give_text(table, "type"@, Ok(name->Ok_0)));
    }
}

/// What a script asks for in vain adds up, until the count starts again.
pub proof fn law_refusals_add_up(count: u64, more: nat, again: nat)
    ensures
        count + more <= u64::MAX ==> counted(count, more) == count + more,
        counted(count, 0) == count,
        counted(counted(count, more), again) == counted(count, more + again),
        count + more == 0x1_0000_0000_0000_0000 ==> counted(count, more) == 0,
{
    vstd::arithmetic::div_mod::lemma_add_mod_noop(
        (count + more) as int,
        again as int,
        0x1_0000_0000_0000_0000,
    );
    vstd::arithmetic::div_mod::lemma_add_mod_noop(
        counted(count, more) as int,
        again as int,
        0x1_0000_0000_0000_0000,
    );
}

} // verus!
