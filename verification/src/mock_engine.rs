//! A stand-in for the engine: it beats, applies directives and answers them.

use crate::float::F32;
use crate::wire::{
    CommandResponse, CommandResult, EngineCommand, EngineDirective, EngineState, EngineStatus,
    ManagerMessage, Phase,
};
use vstd::prelude::*;
use vstd::string::*;

verus! {

/// The state that directives change.
#[derive(Debug, Clone)]
pub struct EngineState_ {
    /// The share of the KV cache that is taken.
    pub kv_occupancy: F32,
    pub active_device: String,
    pub throttle_delay_ms: u64,
    pub eviction_policy: String,
    pub skip_ratio: F32,
    pub state: EngineState,
    pub tokens_generated: usize,
    pub active_actions: Vec<String>,
}

/// The heartbeat of a state: its readings are fixed, with a token every 12.5 milliseconds.
pub open spec fn heartbeat_of(state: EngineState) -> EngineStatus {
    EngineStatus {
        kv_cache_bytes: 1024,
        kv_cache_budget_bytes: 4096,
        kv_cache_tokens: 32,
        tbt_ms: F32 { bits: 0x4148_0000 },
        phase: Phase::Decode,
        state,
    }
}

/// The reason that a small compression is declined with.
pub open spec fn declined_reason() -> Seq<char> {
    "compression declined: too little would be reclaimed"@
}

impl EngineState_ {
    /// An engine that runs, with nothing applied yet.
    pub open spec fn fresh(self, kv_occupancy: F32, device: String) -> bool {
        &&& self.kv_occupancy == kv_occupancy
        &&& self.active_device == device
        &&& self.throttle_delay_ms == 0
        &&& self.eviction_policy@ == "none"@
        &&& self.skip_ratio == (F32 { bits: 0 })
        &&& self.state == EngineState::Running
        &&& self.tokens_generated == 0
        &&& self.active_actions@.len() == 0
    }

    pub fn new(kv_occupancy: F32, device: String) -> (r: Self)
        ensures
            r.fresh(kv_occupancy, device),
    {
        EngineState_ {
            kv_occupancy,
            active_device: device,
            throttle_delay_ms: 0,
            eviction_policy: "none".to_owned(),
            skip_ratio: F32 { bits: 0 },
            state: EngineState::Running,
            tokens_generated: 0,
            active_actions: Vec::new(),
        }
    }

    /// The occupancy that a budget leaves: between 0.01 and 1.
    pub open spec fn compressed(self, budget: F32) -> F32 {
        self.kv_occupancy.times(budget).clamped(F32 { bits: 0x3c23_d70a }, F32 { bits: 0x3f80_0000 })
    }

    /// A compression that would reclaim less than 0.03 is declined.
    pub open spec fn declines(self, budget: F32) -> bool {
        self.kv_occupancy.minus(self.compressed(budget)).lt(F32 { bits: 0x3cf5_c28f })
    }

    /// The state and the answer after a command. A declined compression changes nothing and is
    /// answered as partial; a release clears what was applied and runs again.
    pub open spec fn applied(
        self,
        command: EngineCommand,
        after: EngineState_,
        result: CommandResult,
    ) -> bool {
        match command {
            EngineCommand::KvCompress { budget } => if self.declines(budget) {
                &&& after == self
                &&& result is Partial
                &&& result->Partial_achieved == (F32 { bits: 0x3f80_0000 })
                &&& result->Partial_reason@ == declined_reason()
            } else {
                &&& after == EngineState_ { kv_occupancy: self.compressed(budget), ..self }
                &&& result is Applied
            },
            EngineCommand::RestoreDefaults => {
                &&& after == EngineState_ {
                    active_actions: after.active_actions,
                    skip_ratio: F32 { bits: 0 },
                    state: EngineState::Running,
                    ..self
                }
                &&& after.active_actions@.len() == 0
                &&& result is Applied
            },
            EngineCommand::Suspend => {
                &&& after == EngineState_ { state: EngineState::Suspended, ..self }
                &&& result is Applied
            },
            EngineCommand::Resume => {
                &&& after == EngineState_ { state: EngineState::Running, ..self }
                &&& result is Applied
            },
        }
    }

    /// Applies a command and answers it.
    pub fn apply(&mut self, cmd: &EngineCommand) -> (r: CommandResult)
        ensures
            old(self).applied(*cmd, *final(self), r),
    {
        match cmd {
            EngineCommand::KvCompress { budget } => {
                let before: F32 = self.kv_occupancy;
                let target: F32 = before.times(*budget).clamped(
                    F32 { bits: 0x3c23_d70a },
                    F32 { bits: 0x3f80_0000 },
                );
                if before.minus(target).lt(F32 { bits: 0x3cf5_c28f }) {
                    return CommandResult::Partial {
                        achieved: F32 { bits: 0x3f80_0000 },
                        reason: "compression declined: too little would be reclaimed".to_owned(),
                    };
                }
                self.kv_occupancy = target;
                CommandResult::Applied
            },
            EngineCommand::RestoreDefaults => {
                self.active_actions = Vec::new();
                self.skip_ratio = F32 { bits: 0 };
                self.state = EngineState::Running;
                CommandResult::Applied
            },
            EngineCommand::Suspend => {
                self.state = EngineState::Suspended;
                CommandResult::Applied
            },
            EngineCommand::Resume => {
                self.state = EngineState::Running;
                CommandResult::Applied
            },
        }
    }

    /// The current heartbeat.
    pub fn status(&self) -> (r: EngineStatus)
        ensures
            r == heartbeat_of(self.state),
    {
        EngineStatus {
            kv_cache_bytes: 1024,
            kv_cache_budget_bytes: 4096,
            kv_cache_tokens: 32,
            tbt_ms: F32 { bits: 0x4148_0000 },
            phase: Phase::Decode,
            state: self.state,
        }
    }
}

/// A run of commands: each is applied to the state that the one before left.
pub open spec fn applied_all(
    states: Seq<EngineState_>,
    commands: Seq<EngineCommand>,
    results: Seq<CommandResult>,
) -> bool {
    &&& states.len() == commands.len() + 1
    &&& results.len() == commands.len()
    &&& forall|i: int|
        0 <= i < commands.len() ==> states[i].applied(commands[i], states[i + 1], #[trigger] results[i])
}

/// A count that starts again after the last number that it can hold.
pub open spec fn counted_on(count: u32) -> u32 {
    if count == u32::MAX {
        0
    } else {
        (count + 1) as u32
    }
}

/// Applies a directive and answers it: under its number, with one result for each command.
pub fn handle_directive(directive: &EngineDirective, engine: &mut EngineState_, count: &mut u32) -> (r:
    CommandResponse)
    ensures
        *final(count) == counted_on(*old(count)),
        r.seq_id == directive.seq_id,
        r.results@.len() == directive.commands@.len(),
        exists|states: Seq<EngineState_>|
            #[trigger] applied_all(states, directive.commands@, r.results@) && states[0] == *old(
                engine,
            ) && states.last() == *final(engine),
{
    *count = count.wrapping_add(1);
    let mut results: Vec<CommandResult> = Vec::new();
    let ghost mut states: Seq<EngineState_> = seq![*engine];
    let mut i: usize = 0;
    while i < directive.commands.len()
        invariant
            i <= directive.commands.len(),
            results@.len() == i,
            states.len() == i + 1,
            states[0] == *old(engine),
            states.last() == *engine,
            forall|j: int|
                0 <= j < i ==> states[j].applied(
                    directive.commands@[j],
                    states[j + 1],
                    #[trigger] results@[j],
                ),
        decreases directive.commands.len() - i,
    {
        let result: CommandResult = engine.apply(&directive.commands[i]);
        results.push(result);
        proof {
            states = states.push(*engine);
        }
        i = i + 1;
    }
    let response = CommandResponse { seq_id: directive.seq_id, results };
    proof {
        assert(applied_all(states, directive.commands@, response.results@));
    }
    response
}

/// What happened to a running stand-in.
#[derive(Debug)]
pub enum EngineEvent {
    /// A turn begins. Times are in nanoseconds.
    Turn { elapsed: u128, since_heartbeat: u128 },
    /// The heartbeat was sent, or could not be.
    HeartbeatSent(bool),
    /// A directive came, or none yet, or the stream failed.
    Received(Result<Option<ManagerMessage>, ()>),
    /// The response was sent, or could not be.
    ResponseSent(bool),
}

/// What a running stand-in does next.
#[derive(Debug, Clone)]
pub enum EngineAction {
    SendHeartbeat(EngineStatus),
    Receive,
    SendResponse(CommandResponse),
    /// Rest a little and begin the next turn.
    Rest,
    Stop,
}

/// A running stand-in.
#[derive(Debug, Clone)]
pub struct MockEngine {
    pub engine: EngineState_,
    pub directives_received: u32,
    pub heartbeats_sent: u32,
    /// How long to run, in nanoseconds.
    pub run_duration: u128,
    /// How long between two heartbeats, in nanoseconds.
    pub heartbeat_interval: u128,
}

impl MockEngine {
    pub fn new(kv_occupancy: F32, device: String, duration_secs: u64, heartbeat_ms: u64) -> (r: Self)
        ensures
            r.engine.fresh(kv_occupancy, device),
            r.directives_received == 0,
            r.heartbeats_sent == 0,
            r.run_duration == duration_secs * 1_000_000_000,
            r.heartbeat_interval == heartbeat_ms * 1_000_000,
    {
        MockEngine {
            engine: EngineState_::new(kv_occupancy, device),
            directives_received: 0,
            heartbeats_sent: 0,
            run_duration: (duration_secs as u128) * 1_000_000_000,
            heartbeat_interval: (heartbeat_ms as u128) * 1_000_000,
        }
    }

    /// One step. A turn ends the run where its time is over; it beats where a beat is due, which
    /// also generates a token, and then receives. A directive is applied and answered, and an
    /// answer that cannot be sent ends nothing, while any other failure of the stream does.
    pub fn step(&mut self, event: EngineEvent) -> (r: EngineAction)
        ensures
            final(self).run_duration == old(self).run_duration,
            final(self).heartbeat_interval == old(self).heartbeat_interval,
            match event {
                EngineEvent::Turn { elapsed, since_heartbeat } => {
                    let due = since_heartbeat >= old(self).heartbeat_interval;
                    let over = elapsed >= old(self).run_duration;
                    &&& r == if over {
                        EngineAction::Stop
                    } else if due {
                        EngineAction::SendHeartbeat(heartbeat_of(old(self).engine.state))
                    } else {
                        EngineAction::Receive
                    }
                    &&& *final(self) == if over || !due {
                        *old(self)
                    } else {
                        MockEngine {
                            engine: EngineState_ {
                                tokens_generated: token_counted(old(self).engine.tokens_generated),
                                ..old(self).engine
                            },
                            ..*old(self)
                        }
                    }
                },
                EngineEvent::HeartbeatSent(true) => {
                    &&& r is Receive
                    &&& *final(self) == MockEngine {
                        heartbeats_sent: counted_on(old(self).heartbeats_sent),
                        ..*old(self)
                    }
                },
                EngineEvent::HeartbeatSent(false) => r is Stop && *final(self) == *old(self),
                EngineEvent::Received(Ok(Some(ManagerMessage::Directive(d)))) => {
                    &&& r is SendResponse
                    &&& r->SendResponse_0.seq_id == d.seq_id
                    &&& final(self).directives_received == counted_on(old(self).directives_received)
                    &&& final(self).heartbeats_sent == old(self).heartbeats_sent
                    &&& exists|states: Seq<EngineState_>|
                        #[trigger] applied_all(
                            states,
                            d.commands@,
                            r->SendResponse_0.results@,
                        ) && states[0] == old(self).engine && states.last() == final(self).engine
                },
                EngineEvent::Received(Ok(None)) => r is Rest && *final(self) == *old(self),
                EngineEvent::Received(Err(())) => r is Stop && *final(self) == *old(self),
                EngineEvent::ResponseSent(_) => r is Rest && *final(self) == *old(self),
            },
    {
        match event {
            EngineEvent::Turn { elapsed, since_heartbeat } => {
                if elapsed >= self.run_duration {
                    EngineAction::Stop
                } else if since_heartbeat >= self.heartbeat_interval {
                    self.engine.tokens_generated = self.engine.tokens_generated.wrapping_add(1);
                    EngineAction::SendHeartbeat(self.engine.status())
                } else {
                    EngineAction::Receive
                }
            },
            EngineEvent::HeartbeatSent(sent) => {
                if sent {
                    self.heartbeats_sent = self.heartbeats_sent.wrapping_add(1);
                    EngineAction::Receive
                } else {
                    EngineAction::Stop
                }
            },
            EngineEvent::Received(received) => match received {
                Ok(Some(message)) => match message {
                    ManagerMessage::Directive(directive) => EngineAction::SendResponse(
                        handle_directive(
                            &directive,
                            &mut self.engine,
                            &mut self.directives_received,
                        ),
                    ),
                },
                Ok(None) => EngineAction::Rest,
                Err(_) => EngineAction::Stop,
            },
            EngineEvent::ResponseSent(_) => EngineAction::Rest,
        }
    }
}

/// A token count that starts again after the last number that it can hold.
pub open spec fn token_counted(count: usize) -> usize {
    if count == usize::MAX {
        0
    } else {
        (count + 1) as usize
    }
}

/// A compression that is declined leaves the cache untouched, and one that is not leaves no less
/// than 0.01 and no more than 1.
pub proof fn law_compression_is_bounded(
    engine: EngineState_,
    budget: F32,
    after: EngineState_,
    result: CommandResult,
)
    requires
        engine.applied(EngineCommand::KvCompress { budget }, after, result),
    ensures
        result is Partial <==> engine.declines(budget),
        result is Partial ==> after == engine,
        result is Applied ==> !after.kv_occupancy.lt(F32 { bits: 0x3c23_d70a }) && !(F32 {
            bits: 0x3f80_0000,
        }).lt(after.kv_occupancy),
{
}

/// An engine that is suspended runs again when it is resumed, with nothing else changed.
pub proof fn law_resume_undoes_suspend(
    engine: EngineState_,
    between: EngineState_,
    after: EngineState_,
    r1: CommandResult,
    r2: CommandResult,
)
    requires
        engine.state == EngineState::Running,
        engine.applied(EngineCommand::Suspend, between, r1),
        between.applied(EngineCommand::Resume, after, r2),
    ensures
        between.state == EngineState::Suspended,
        after == engine,
{
}

} // verus!
