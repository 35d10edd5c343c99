//! What the service does with a signal, and how it reaches the engine.

use crate::float::F64;
use crate::pipeline::{numbered, PolicyStrategy, SeqCounter};
use crate::service::{
    signal_handled, transport_read, waited, ServiceState, Transport, UnknownTransport,
};
use crate::laws::texts::law_prefix_is_taken_off;
use crate::signal::SystemSignal;
use crate::text::occurs_at;
use crate::wire::{same_commands, EngineCommand, EngineDirective};
use vstd::prelude::*;

verus! {

/// The numbers of directives go up by one each time.
pub proof fn law_numbers_go_up_by_one(ids: SeqCounter)
    ensures
        ids.next < u64::MAX ==> ids.taken().next == ids.next + 1,
        ids.next == u64::MAX ==> ids.taken().next == 0,
{
}

/// The counter after many numbers were taken.
pub open spec fn taken_times(ids: SeqCounter, times: nat) -> SeqCounter
    decreases times,
{
    if times == 0 {
        ids
    } else {
        taken_times(ids, (times - 1) as nat).taken()
    }
}

/// No number is given twice before all of them were given.
pub proof fn law_numbers_are_not_given_twice(ids: SeqCounter, first: nat, second: nat)
    requires
        first < second,
        ids.next + second <= u64::MAX,
    ensures
        taken_times(ids, first).next == ids.next + first,
        taken_times(ids, second).next == ids.next + second,
        taken_times(ids, first).next < taken_times(ids, second).next,
    decreases second,
{
    if first > 0 {
        law_numbers_are_not_given_twice(ids, (first - 1) as nat, first);
    }
    if second > first + 1 {
        law_numbers_are_not_given_twice(ids, first, (second - 1) as nat);
    }
}

/// A directive takes the number that is next, and only a directive takes one.
pub proof fn law_directives_take_the_next_number(
    directive: Option<EngineDirective>,
    before: SeqCounter,
    after: SeqCounter,
)
    requires
        numbered(directive, before, after),
    ensures
        directive is Some ==> directive->Some_0.seq_id == before.next
            && directive->Some_0.commands@.len() > 0 && after.next != before.next,
        directive is None ==> after == before,
{
}

/// What is sent is what the policy decided on the signal, and is then what was sent last. What the
/// policy decided is held back only where it repeats what was sent last and the cooldown has not gone
/// by since; where the policy decided nothing, nothing changes but the policy.
pub proof fn law_what_is_sent_was_decided<P: PolicyStrategy>(
    policy: P,
    before: ServiceState,
    signal: SystemSignal,
    now_secs: F64,
    sent: Option<EngineDirective>,
    policy_after: P,
    after: ServiceState,
)
    requires
        signal_handled(policy, before, signal, now_secs, sent, policy_after, after),
    ensures
        sent is Some ==> {
            &&& policy.may_process(signal, sent->Some_0.commands@, policy_after)
            &&& after.passed.last_commands == Some(sent->Some_0.commands@)
            &&& after.passed.last_sent_at == Some(now_secs)
            &&& sent->Some_0.seq_id == before.ids.next
        },
        sent is None ==> after.passed == before.passed,
        sent is None && after.ids != before.ids ==> exists|
            commands: Seq<EngineCommand>,
            processed: P,
        | #[trigger]
            policy.may_process(signal, commands, processed) && policy_after == processed.uncounted()
                && before.passed.last_commands is Some && before.passed.last_commands->Some_0.len()
                == commands.len() && commands.len() > 0 && same_commands(
                before.passed.last_commands->Some_0,
                commands,
            ) && (before.passed.last_sent_at is Some ==> !now_secs.minus(
                before.passed.last_sent_at->Some_0,
            ).at_least(before.passed.cooldown_secs)),
        sent is None && after.ids == before.ids && before.ids.next < u64::MAX ==> after == before
            && policy.may_process(signal, Seq::<EngineCommand>::empty(), policy_after),
        after.passed.cooldown_secs == before.passed.cooldown_secs,
{
    let (commands, processed) = choose|commands: Seq<EngineCommand>, processed: P|
        #![trigger policy.may_process(signal, commands, processed)]
        policy.may_process(signal, commands, processed) && if commands.len() == 0 {
            sent is None && policy_after == processed && after == before
        } else {
            &&& after.ids == before.ids.taken()
            &&& after.passed == before.passed.after(commands, now_secs)
            &&& if before.passed.lets_pass(commands, now_secs) {
                &&& sent is Some
                &&& sent->Some_0.seq_id == before.ids.next
                &&& sent->Some_0.commands@ == commands
                &&& policy_after == processed
            } else {
                sent is None && policy_after == processed.uncounted()
            }
        };
    if commands.len() == 0 {
        assert(commands =~= Seq::<EngineCommand>::empty());
    }
}

/// A transport is what its text says: after `unix:` and `tcp:` all the rest is the path or the
/// address, `dbus` alone is the bus, and any other text is refused and given back.
pub proof fn law_transports_are_read(
    rest: Seq<char>,
    text: Seq<char>,
    r: Result<Transport, UnknownTransport>,
)
    requires
        transport_read(text, r),
    ensures
        text == "unix:"@ + rest <==> r is Ok && r->Ok_0 is Unix && r->Ok_0->Unix_0@ == rest,
        text == "tcp:"@ + rest <==> r is Ok && r->Ok_0 is Tcp && r->Ok_0->Tcp_0@ == rest,
        text == "dbus"@ <==> r is Ok && r->Ok_0 is Dbus,
        r is Err ==> r->Err_0.text@ == text,
{
    reveal_strlit("unix:");
    reveal_strlit("tcp:");
    reveal_strlit("dbus");
    law_prefix_is_taken_off(text, "unix:"@, rest);
    law_prefix_is_taken_off(text, "tcp:"@, rest);
    assert("unix:"@[0] == 'u' && "tcp:"@[0] == 't' && "dbus"@[0] == 'd');
    if occurs_at(text, "unix:"@, 0) {
        assert(text.subrange(0, 5)[0] == text[0]);
    }
    if occurs_at(text, "tcp:"@, 0) {
        assert(text.subrange(0, 4)[0] == text[0]);
    }
}

/// An engine that came is never turned away, whatever else happened; the bus has none to wait for.
/// Without one a shutdown ends the service, and else only a service on a path goes on.
pub proof fn law_waiting_for_the_engine(transport: Transport, connected: bool, shutdown: bool)
    ensures
        waited(transport, connected, shutdown) is Connected <==> connected || transport is Dbus,
        waited(transport, connected, shutdown) is ShuttingDown <==> !connected && shutdown && !(
        transport is Dbus),
        waited(transport, connected, shutdown) is ProceedAnyway <==> !connected && !shutdown
            && transport is Unix,
        waited(transport, connected, shutdown) is NoClient <==> !connected && !shutdown
            && transport is Tcp,
{
}

} // verus!
