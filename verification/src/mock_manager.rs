//! A stand-in for the manager: it listens to heartbeats, plays commands and checks the answers.

use crate::emitter::dbus::{DbusArg, DbusContent, DbusMessage, DbusValue};
use crate::float::{F32, F64};
use crate::mock_engine::{applied_all, EngineState_};
use crate::text::same;
use crate::wire::{CommandResponse, EngineCommand, EngineDirective, EngineMessage};
use vstd::prelude::*;
use vstd::string::*;

verus! {

/// How long an answer is waited for, in milliseconds.
pub const RESPONSE_TIMEOUT_MS: u64 = 5000;

/// How long heartbeats are watched after the last command, in seconds.
pub const OBSERVE_SECS: u64 = 2;

/// A row of commands to play.
#[derive(Debug, Clone)]
pub struct CommandScenario {
    pub name: String,
    pub description: Option<String>,
    pub commands: Vec<ScenarioCommand>,
}

/// One command of a scenario.
#[derive(Debug, Clone)]
pub struct ScenarioCommand {
    /// How long to wait before it.
    pub delay_ms: u64,
    pub command: String,
    /// The budget of a compression.
    pub keep_ratio: Option<F32>,
}

/// What a command is built from.
pub struct CommandParams<'a> {
    pub name: &'a str,
    pub keep_ratio: Option<F32>,
}

/// Why there is no command.
#[derive(Debug, Clone)]
pub enum CommandError {
    /// A compression needs a ratio to keep.
    MissingKeepRatio,
    /// No command has this name.
    Unknown(String),
}

/// The command that a name stands for. A compression keeps the ratio that is given.
pub open spec fn named_command(name: Seq<char>, keep_ratio: Option<F32>) -> Option<EngineCommand> {
    if name == "KvCompress"@ {
        match keep_ratio {
            Some(budget) => Some(EngineCommand::KvCompress { budget }),
            None => None,
        }
    } else if name == "RestoreDefaults"@ {
        Some(EngineCommand::RestoreDefaults)
    } else if name == "Suspend"@ {
        Some(EngineCommand::Suspend)
    } else if name == "Resume"@ {
        Some(EngineCommand::Resume)
    } else {
        None
    }
}

/// Whether building a command ends so. A name of the contract fails only as a compression
/// without a ratio.
pub open spec fn command_built(
    name: Seq<char>,
    keep_ratio: Option<F32>,
    r: Result<EngineCommand, CommandError>,
) -> bool {
    match r {
        Ok(command) => named_command(name, keep_ratio) == Some(command),
        Err(CommandError::MissingKeepRatio) => named_command(name, keep_ratio) is None && name
            == "KvCompress"@,
        Err(CommandError::Unknown(unknown)) => named_command(name, keep_ratio) is None && name
            != "KvCompress"@ && unknown@ == name,
    }
}

pub fn build_command(params: &CommandParams<'_>) -> (r: Result<EngineCommand, CommandError>)
    ensures
        command_built(params.name@, params.keep_ratio, r),
{
    if same(params.name, "KvCompress") {
        match params.keep_ratio {
            Some(budget) => Ok(EngineCommand::KvCompress { budget }),
            None => Err(CommandError::MissingKeepRatio),
        }
    } else if same(params.name, "RestoreDefaults") {
        Ok(EngineCommand::RestoreDefaults)
    } else if same(params.name, "Suspend") {
        Ok(EngineCommand::Suspend)
    } else if same(params.name, "Resume") {
        Ok(EngineCommand::Resume)
    } else {
        Err(CommandError::Unknown(params.name.to_owned()))
    }
}

/// How an answer holds against what was sent.
#[derive(Debug, Clone, Copy, PartialEq, Eq, Structural)]
pub struct ResponseCheck {
    /// It answers the number that was sent.
    pub seq_id_matches: bool,
    /// It has one result for each command.
    pub count_matches: bool,
}

pub open spec fn checked(seq_id: u64, response: CommandResponse, num_commands: nat) -> ResponseCheck {
    ResponseCheck {
        seq_id_matches: response.seq_id == seq_id,
        count_matches: response.results@.len() == num_commands,
    }
}

pub fn check_response(seq_id: u64, response: &CommandResponse, num_commands: usize) -> (r:
    ResponseCheck)
    ensures
        r == checked(seq_id, *response, num_commands as nat),
{
    ResponseCheck {
        seq_id_matches: response.seq_id == seq_id,
        count_matches: response.results.len() == num_commands,
    }
}

/// Whether an answer keeps the protocol: the number that was sent, and one result for each
/// command.
pub fn validate_response(seq_id: u64, response: &CommandResponse, num_commands: usize) -> (r: bool)
    ensures
        r <==> response.seq_id == seq_id && response.results@.len() == num_commands,
{
    let check: ResponseCheck = check_response(seq_id, response, num_commands);
    check.seq_id_matches && check.count_matches
}

/// A message that was waited for, or another one.
#[derive(Debug)]
pub enum Selected<T> {
    Match(T),
    Skip(EngineMessage),
}

/// Picks responses: heartbeats come in between and are skipped.
pub fn select_response(msg: EngineMessage) -> (r: Selected<CommandResponse>)
    ensures
        match msg {
            EngineMessage::Response(resp) => r == Selected::Match(resp),
            EngineMessage::Heartbeat(_) => r == Selected::<CommandResponse>::Skip(msg),
        },
{
    match msg {
        EngineMessage::Response(resp) => Selected::Match(resp),
        other => Selected::Skip(other),
    }
}

/// What waiting for an answer does next.
#[derive(Debug)]
pub enum AnswerStep {
    /// The answer is here.
    Answered(CommandResponse),
    /// Another message came: note it and go on.
    Skipped(EngineMessage),
    /// Nothing came: rest a little and go on.
    Rest,
    /// The time is over.
    GiveUp,
}

/// One step of waiting for an answer. Nothing more is taken in once the time is over.
pub fn await_answer(expired: bool, received: Option<EngineMessage>) -> (r: AnswerStep)
    ensures
        r == if expired {
            AnswerStep::GiveUp
        } else {
            match received {
                Some(EngineMessage::Response(resp)) => AnswerStep::Answered(resp),
                Some(msg) => AnswerStep::Skipped(msg),
                None => AnswerStep::Rest,
            }
        },
{
    if expired {
        return AnswerStep::GiveUp;
    }
    match received {
        Some(msg) => match select_response(msg) {
            Selected::Match(resp) => AnswerStep::Answered(resp),
            Selected::Skip(skipped) => AnswerStep::Skipped(skipped),
        },
        None => AnswerStep::Rest,
    }
}

/// Counts a message where it is a heartbeat, and tells whether it is one. The count starts again
/// after the last number that it can hold.
pub fn note_heartbeat(count: &mut u32, msg: &EngineMessage) -> (r: bool)
    ensures
        r == msg is Heartbeat,
        *final(count) == if r {
            if *old(count) == u32::MAX {
                0
            } else {
                (*old(count) + 1) as u32
            }
        } else {
            *old(count)
        },
{
    match msg {
        EngineMessage::Heartbeat(_) => {
            *count = count.wrapping_add(1);
            true
        },
        EngineMessage::Response(_) => false,
    }
}

/// What to play.
#[derive(Debug, Clone, Copy, PartialEq, Eq, Structural)]
pub enum Task {
    Scenario,
    Single,
    Nothing,
    /// Neither a command nor a scenario was given.
    Missing,
}

/// A scenario goes before a single command; over a socket there must be one of them.
pub fn choose_task(scenario: bool, command: bool, dbus: bool) -> (r: Task)
    ensures
        r == if scenario {
            Task::Scenario
        } else if command {
            Task::Single
        } else if dbus {
            Task::Nothing
        } else {
            Task::Missing
        },
{
    if scenario {
        Task::Scenario
    } else if command {
        Task::Single
    } else if dbus {
        Task::Nothing
    } else {
        Task::Missing
    }
}

/// Where a run of the stand-in is.
#[derive(Debug, Clone, Copy, PartialEq, Eq, Structural)]
pub enum RunPhase {
    /// Heartbeats are waited for.
    Waiting,
    /// The wait is over, and the task is due.
    Acting,
    /// The task is done, and its effect is to be watched.
    Observing,
    Over,
}

/// What a run of the stand-in does next.
#[derive(Debug, Clone, Copy, PartialEq, Eq, Structural)]
pub enum RunAction {
    /// Take in messages for so many seconds, counting heartbeats.
    Watch(u64),
    /// Play the task.
    Play(Task),
    /// Stop: there is nothing to play.
    Refuse,
    Finish,
}

/// A run of the stand-in: it waits for heartbeats, plays its task and watches what comes of it.
#[derive(Debug, Clone, Copy)]
pub struct ProtocolRun {
    pub phase: RunPhase,
    pub wait_secs: u64,
    pub task: Task,
}

impl ProtocolRun {
    pub fn new(wait_secs: u64, task: Task) -> (r: Self)
        ensures
            r == (ProtocolRun { phase: RunPhase::Waiting, wait_secs, task }),
    {
        ProtocolRun { phase: RunPhase::Waiting, wait_secs, task }
    }

    /// What is done in this phase. That there is nothing to play is found out only after the wait.
    pub open spec fn action(self) -> RunAction {
        match self.phase {
            RunPhase::Waiting => RunAction::Watch(self.wait_secs),
            RunPhase::Acting => if self.task == Task::Missing {
                RunAction::Refuse
            } else {
                RunAction::Play(self.task)
            },
            RunPhase::Observing => RunAction::Watch(OBSERVE_SECS),
            RunPhase::Over => RunAction::Finish,
        }
    }

    /// The run when that is done.
    pub open spec fn advanced(self) -> ProtocolRun {
        ProtocolRun {
            phase: match self.phase {
                RunPhase::Waiting => RunPhase::Acting,
                RunPhase::Acting => if self.task == Task::Missing {
                    RunPhase::Over
                } else {
                    RunPhase::Observing
                },
                RunPhase::Observing => RunPhase::Over,
                RunPhase::Over => RunPhase::Over,
            },
            ..self
        }
    }

    /// Gives what to do now, and goes on to the phase after it.
    pub fn next(&mut self) -> (r: RunAction)
        ensures
            r == old(self).action(),
            *final(self) == old(self).advanced(),
    {
        match self.phase {
            RunPhase::Waiting => {
                self.phase = RunPhase::Acting;
                RunAction::Watch(self.wait_secs)
            },
            RunPhase::Acting => {
                if self.task == Task::Missing {
                    self.phase = RunPhase::Over;
                    RunAction::Refuse
                } else {
                    self.phase = RunPhase::Observing;
                    RunAction::Play(self.task)
                }
            },
            RunPhase::Observing => {
                self.phase = RunPhase::Over;
                RunAction::Watch(OBSERVE_SECS)
            },
            RunPhase::Over => RunAction::Finish,
        }
    }
}

/// A run waits for heartbeats, then plays, then watches, and then is over; without a task it is
/// refused after the wait, with nothing played and nothing watched.
pub proof fn law_run_keeps_its_order(wait_secs: u64, task: Task)
    ensures
        ({
            let first = ProtocolRun { phase: RunPhase::Waiting, wait_secs, task };
            let second = first.advanced();
            let third = second.advanced();
            let fourth = third.advanced();
            &&& first.action() == RunAction::Watch(wait_secs)
            &&& task == Task::Missing ==> {
                &&& second.action() == RunAction::Refuse
                &&& third.action() == RunAction::Finish
            }
            &&& task != Task::Missing ==> {
                &&& second.action() == RunAction::Play(task)
                &&& third.action() == RunAction::Watch(OBSERVE_SECS)
                &&& fourth.action() == RunAction::Finish
            }
            &&& fourth.advanced() == fourth
        }),
{
}

/// Where a playing stands with the command at its index.
#[derive(Debug, Clone, Copy, PartialEq, Eq, Structural)]
pub enum Stage {
    /// Its wait has not begun.
    Start,
    /// Its wait is over.
    Due,
    /// It was sent, and its answer is awaited.
    Awaiting,
}

/// What a playing does next.
#[derive(Debug, Clone)]
pub enum PlayAction {
    /// Wait this many milliseconds, taking in heartbeats meanwhile.
    Wait(u64),
    /// Send this, and wait for the answer.
    Send(EngineDirective),
    /// Stop: there is no such command.
    Fail(CommandError),
    Finish,
}

/// The playing of commands, one at a time.
#[derive(Debug, Clone)]
pub struct Playing {
    pub commands: Vec<ScenarioCommand>,
    pub index: usize,
    /// The number of the last directive.
    pub seq_id: u64,
    pub stage: Stage,
}

impl Playing {
    /// Directives are numbered from one, in the order of the commands.
    pub open spec fn wf(self) -> bool {
        &&& self.index <= self.commands@.len()
        &&& self.stage != Stage::Start ==> self.index < self.commands@.len()
        &&& self.seq_id == self.index + if self.stage == Stage::Awaiting {
            1int
        } else {
            0
        }
    }

    /// Plays a scenario.
    pub fn scenario(commands: Vec<ScenarioCommand>) -> (r: Self)
        ensures
            r.wf(),
            r.commands == commands,
            r.index == 0,
            r.stage == Stage::Start,
    {
        Playing { commands, index: 0, seq_id: 0, stage: Stage::Start }
    }

    /// Plays one command at once.
    pub fn single(command: String, keep_ratio: Option<F32>) -> (r: Self)
        ensures
            r.wf(),
            r.commands@ == seq![(ScenarioCommand { delay_ms: 0, command, keep_ratio })],
            r.index == 0,
            r.stage == Stage::Start,
    {
        let r = Playing {
            commands: vec![ScenarioCommand { delay_ms: 0, command, keep_ratio }],
            index: 0,
            seq_id: 0,
            stage: Stage::Start,
        };
        proof {
            assert(r.commands@ =~= seq![(ScenarioCommand { delay_ms: 0, command, keep_ratio })]);
        }
        r
    }

    /// Whether the command at the index has a wait before it that has not begun.
    pub open spec fn must_wait(self) -> bool {
        self.stage == Stage::Start && self.commands@[self.index as int].delay_ms > 0
    }

    /// Goes on where no answer is awaited: waits before the command at the index, then builds it
    /// and sends it alone under the next number, or fails where there is no such command.
    pub fn proceed(&mut self) -> (r: PlayAction)
        requires
            old(self).wf(),
            old(self).stage != Stage::Awaiting,
        ensures
            final(self).wf(),
            if old(self).index == old(self).commands@.len() {
                r is Finish && *final(self) == *old(self)
            } else {
                let entry = old(self).commands@[old(self).index as int];
                if old(self).must_wait() {
                    &&& r == PlayAction::Wait(entry.delay_ms)
                    &&& *final(self) == Playing { stage: Stage::Due, ..*old(self) }
                } else {
                    match r {
                        PlayAction::Send(d) => {
                            &&& d.seq_id == old(self).index + 1
                            &&& d.commands@.len() == 1
                            &&& command_built(
                                entry.command@,
                                entry.keep_ratio,
                                Ok(d.commands@[0]),
                            )
                            &&& *final(self) == Playing {
                                seq_id: d.seq_id,
                                stage: Stage::Awaiting,
                                ..*old(self)
                            }
                        },
                        PlayAction::Fail(e) => {
                            &&& command_built(entry.command@, entry.keep_ratio, Err(e))
                            &&& *final(self) == *old(self)
                        },
                        _ => false,
                    }
                }
            },
    {
        if self.index == self.commands.len() {
            return PlayAction::Finish;
        }
        let entry: &ScenarioCommand = &self.commands[self.index];
        if let Stage::Start = self.stage {
            if entry.delay_ms > 0 {
                let delay_ms: u64 = entry.delay_ms;
                self.stage = Stage::Due;
                return PlayAction::Wait(delay_ms);
            }
        }
        let params = CommandParams { name: entry.command.as_str(), keep_ratio: entry.keep_ratio };
        match build_command(&params) {
            Ok(command) => {
                self.seq_id = self.seq_id + 1;
                self.stage = Stage::Awaiting;
                PlayAction::Send(EngineDirective { seq_id: self.seq_id, commands: vec![command] })
            },
            Err(e) => PlayAction::Fail(e),
        }
    }

    /// Takes the answer to what was sent, or that none came in time, and turns to the next
    /// command. An answer is checked against the number and the one command that were sent.
    pub fn answered(&mut self, response: &Option<CommandResponse>) -> (r: Option<ResponseCheck>)
        requires
            old(self).wf(),
            old(self).stage == Stage::Awaiting,
        ensures
            final(self).wf(),
            *final(self) == (Playing {
                index: (old(self).index + 1) as usize,
                stage: Stage::Start,
                ..*old(self)
            }),
            r == match *response {
                Some(resp) => Some(checked(old(self).seq_id, resp, 1)),
                None => None,
            },
    {
        let check: Option<ResponseCheck> = match response {
            Some(resp) => Some(check_response(self.seq_id, resp, 1)),
            None => None,
        };
        let count: usize = self.commands.len();
        assert(self.index < count);
        self.index = self.index + 1;
        self.stage = Stage::Start;
        check
    }
}

/// What a signal is built from; what is missing has a default.
#[derive(Debug, Clone)]
pub struct SignalParams {
    pub available_bytes: Option<u64>,
    pub reclaim_target_bytes: Option<u64>,
    pub recommended_backend: Option<String>,
    pub reason: Option<String>,
    pub cpu_usage_pct: Option<F64>,
    pub gpu_usage_pct: Option<F64>,
    pub temperature_mc: Option<i32>,
    pub throttling_active: Option<bool>,
    pub throttle_ratio: Option<F64>,
    pub power_budget_mw: Option<u32>,
}

/// One signal of a scenario.
#[derive(Debug, Clone)]
pub struct DbusScenarioSignal {
    pub delay_ms: u64,
    pub signal: String,
    pub level: String,
    pub params: SignalParams,
}

/// A row of signals to play.
#[derive(Debug, Clone)]
pub struct DbusScenario {
    pub name: String,
    pub description: Option<String>,
    pub signals: Vec<DbusScenarioSignal>,
}

/// No signal has this name.
#[derive(Debug, Clone)]
pub struct UnknownSignal {
    pub name: String,
}

/// A text, or a default.
pub open spec fn text_or(text: Option<String>, default: Seq<char>) -> Seq<char> {
    match text {
        Some(s) => s@,
        None => default,
    }
}

/// A value, or a default.
pub open spec fn value_or<T>(value: Option<T>, default: T) -> T {
    match value {
        Some(v) => v,
        None => default,
    }
}

fn text_or_default(text: &Option<String>, default: &str) -> (r: String)
    ensures
        r@ == text_or(*text, default@),
{
    match text {
        Some(s) => s.clone(),
        None => default.to_owned(),
    }
}

/// The message of a named signal. Without values memory and power are zero, the backend is
/// `any`, the reason `balanced` or `none`, usage is zero, and the temperature 25 degrees without
/// throttling at a ratio of one.
pub open spec fn named_signal(
    name: Seq<char>,
    level: Seq<char>,
    p: SignalParams,
) -> Option<DbusContent> {
    if name == "MemoryPressure"@ {
        Some(
            DbusContent {
                member: name,
                args: seq![
                    DbusValue::Text(level),
                    DbusValue::Unsigned(value_or(p.available_bytes, 0)),
                    DbusValue::Unsigned(value_or(p.reclaim_target_bytes, 0)),
                ],
            },
        )
    } else if name == "ComputeGuidance"@ {
        Some(
            DbusContent {
                member: name,
                args: seq![
                    DbusValue::Text(level),
                    DbusValue::Text(text_or(p.recommended_backend, "any"@)),
                    DbusValue::Text(text_or(p.reason, "balanced"@)),
                    DbusValue::Number(value_or(p.cpu_usage_pct, F64 { bits: 0 })),
                    DbusValue::Number(value_or(p.gpu_usage_pct, F64 { bits: 0 })),
                ],
            },
        )
    } else if name == "ThermalAlert"@ {
        Some(
            DbusContent {
                member: name,
                args: seq![
                    DbusValue::Text(level),
                    DbusValue::Signed(value_or(p.temperature_mc, 25000)),
                    DbusValue::Flag(value_or(p.throttling_active, false)),
                    DbusValue::Number(value_or(p.throttle_ratio, F64 { bits: 0x3ff0_0000_0000_0000 })),
                ],
            },
        )
    } else if name == "EnergyConstraint"@ {
        Some(
            DbusContent {
                member: name,
                args: seq![
                    DbusValue::Text(level),
                    DbusValue::Text(text_or(p.reason, "none"@)),
                    DbusValue::Word(value_or(p.power_budget_mw, 0)),
                ],
            },
        )
    } else {
        None
    }
}

/// Builds the message of a named signal at a level.
pub fn build_signal(name: &str, level: &str, p: &SignalParams) -> (r: Result<
    DbusMessage,
    UnknownSignal,
>)
    ensures
        match r {
            Ok(message) => named_signal(name@, level@, *p) == Some(message@),
            Err(e) => named_signal(name@, level@, *p) is None && e.name@ == name@,
        },
{
    let mut args: Vec<DbusArg> = vec![DbusArg::Text(level.to_owned())];
    if same(name, "MemoryPressure") {
        args.push(DbusArg::Unsigned(p.available_bytes.unwrap_or(0)));
        args.push(DbusArg::Unsigned(p.reclaim_target_bytes.unwrap_or(0)));
    } else if same(name, "ComputeGuidance") {
        args.push(DbusArg::Text(text_or_default(&p.recommended_backend, "any")));
        args.push(DbusArg::Text(text_or_default(&p.reason, "balanced")));
        args.push(DbusArg::Number(p.cpu_usage_pct.unwrap_or(F64 { bits: 0 })));
        args.push(DbusArg::Number(p.gpu_usage_pct.unwrap_or(F64 { bits: 0 })));
    } else if same(name, "ThermalAlert") {
        args.push(DbusArg::Signed(p.temperature_mc.unwrap_or(25000)));
        args.push(DbusArg::Flag(p.throttling_active.unwrap_or(false)));
        args.push(
            DbusArg::Number(p.throttle_ratio.unwrap_or(F64 { bits: 0x3ff0_0000_0000_0000 })),
        );
    } else if same(name, "EnergyConstraint") {
        args.push(DbusArg::Text(text_or_default(&p.reason, "none")));
        args.push(DbusArg::Word(p.power_budget_mw.unwrap_or(0)));
    } else {
        return Err(UnknownSignal { name: name.to_owned() });
    }
    let message = DbusMessage { member: name.to_owned(), args };
    proof {
        assert(message@.args =~= named_signal(name@, level@, *p)->Some_0.args);
    }
    Ok(message)
}

/// Builds the message of a scenario's signal.
pub fn emit_scenario_signal(entry: &DbusScenarioSignal) -> (r: Result<DbusMessage, UnknownSignal>)
    ensures
        match r {
            Ok(message) => named_signal(entry.signal@, entry.level@, entry.params) == Some(message@),
            Err(e) => named_signal(entry.signal@, entry.level@, entry.params) is None && e.name@
                == entry.signal@,
        },
{
    build_signal(entry.signal.as_str(), entry.level.as_str(), &entry.params)
}

/// Builds the message of one signal; its level is `normal` where none is given.
pub fn emit_single(signal_name: &str, level: &Option<String>, params: &SignalParams) -> (r: Result<
    DbusMessage,
    UnknownSignal,
>)
    ensures
        match r {
            Ok(message) => named_signal(signal_name@, text_or(*level, "normal"@), *params) == Some(
                message@,
            ),
            Err(e) => named_signal(signal_name@, text_or(*level, "normal"@), *params) is None
                && e.name@ == signal_name@,
        },
{
    let level: String = text_or_default(level, "normal");
    build_signal(signal_name, level.as_str(), params)
}

/// The answer of an engine that applies a directive passes the check of the manager that sent it:
/// it repeats the number and has one result for each command.
pub proof fn law_engine_answers_pass(
    directive: EngineDirective,
    states: Seq<EngineState_>,
    response: CommandResponse,
)
    requires
        response.seq_id == directive.seq_id,
        applied_all(states, directive.commands@, response.results@),
    ensures
        checked(directive.seq_id, response, directive.commands@.len()) == (ResponseCheck {
            seq_id_matches: true,
            count_matches: true,
        }),
{
}

} // verus!
