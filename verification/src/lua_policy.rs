//! The scripted policy: the manager's decision layer.
//!
//! [`LuaPolicy`] normalizes the monitors' signals into per-axis pressure, applies the enter and
//! exit thresholds, and hands both to a `decide(ctx)` function of a script that the operator
//! supplies. What that returns becomes a directive.
//!
//! A script must define a global `decide(ctx)`; see [`crate::lua::context`] for `ctx` and
//! [`crate::lua::decision`] for what it may return. It may also define
//! `POLICY_META = { name = ..., version = ... }`.

use crate::config::AdaptationConfig;
use crate::float::F64;
use crate::lua::context::{build_ctx, ctx_fields, may_fail_to_build};
use crate::lua::decision::{
    actions, counted, decision_read, law_budgets_are_usable, parse_actions, read_decision, refused,
    usable_budget, Decision,
};
use crate::lua::fallback::{fallback_commands, fallback_decide};
use crate::lua::vm::{
    bare_machine, call_global, called_once, calls_made, global_is_function, global_table, libraries, limit_memory,
    load_library, machine, may_answer, may_be_function, may_be_table, may_fail_to_limit,
    may_fail_to_load, may_fail_to_start, may_give_text, may_run, memory_limit, run_chunk,
    text_field, texts_run, Answer, Field, Library,
};
use crate::pipeline::{
    lemma_visited_one_more, next_seq_id, visited, OverrunCollector, PolicyStrategy, PolicyVisitor,
    ReloadablePolicy, SeqCounter, Shown,
};
use crate::policy::common::state::{
    Pressure6D, SignalState, TriggerEngine, TriggerState,
};
use crate::signal::SystemSignal;
use crate::types::OperatingMode;
use crate::wire::{EngineCommand, EngineDirective, EngineMessage, EngineStatus};
use vstd::prelude::*;

verus! {

/// After this many failures in a row the script is not called any more.
pub const FALLBACK_ERROR_THRESHOLD: u32 = 3;

/// What a script says of itself.
#[derive(Debug, Clone)]
pub struct PolicyMeta {
    pub name: String,
    pub version: String,
}

/// How many bytes a script's machine may take.
pub const MEMORY_LIMIT: usize = 4 * 1024 * 1024;

/// Why a script could not be loaded.
#[derive(Debug)]
pub enum LoadError {
    /// There is no machine for it.
    Machine(mlua::Error),
    /// The functions for scripts could not be added to the machine.
    Registration(mlua::Error),
    /// The text is not a program, or failed as one.
    Evaluation(mlua::Error),
    /// The global `decide` could not be looked up.
    Lookup(mlua::Error),
    /// The global `decide` is not a function.
    NoDecide,
}

pub struct LuaPolicy {
    pub lua: mlua::Lua,
    pub script_path: String,
    pub policy_meta: Option<PolicyMeta>,
    pub signal_state: SignalState,
    pub trigger_engine: TriggerEngine,
    /// The last heartbeat.
    pub engine_state: Option<EngineStatus>,
    pub adaptation_config: AdaptationConfig,
    /// Failures of the machine since it last worked.
    pub consecutive_errors: u32,
    /// Why the last call of the script failed, where it did.
    pub last_failure: Option<mlua::Error>,
    /// The script is not called any more.
    pub permanent_fallback: bool,
    /// How often the script asked for what this manager cannot express. A script that a change
    /// of the contract left behind fails in this way and no other.
    pub dropped_actions: u64,
}

/// What came of calling `decide`: a decision, or a failure of the machine.
pub type Outcome = Result<Decision, mlua::Error>;

/// What a script's machine has: tables, strings, mathematics and files, and nothing of the
/// operating system, packages or debugging.
///
/// Files are allowed so that a script can read sensors that the manager does not know about, so a
/// script runs with the manager's privileges. Its memory is limited, unless the machine refuses
/// any limit.
///
/// A function that is registered in a machine could load more or lift the limit through its own
/// handle. This speaks of machines whose functions do neither.
pub open spec fn sandboxed(lua: mlua::Lua) -> bool {
    &&& libraries(lua) =~= set![Library::Tables, Library::Strings, Library::Maths, Library::Files]
    &&& memory_limit(lua) == Some(MEMORY_LIMIT as nat) || exists|e: mlua::Error| #[trigger]
        may_fail_to_limit(MEMORY_LIMIT as nat, e)
}

/// Whether there can be no machine for a script for this reason: it does not start, or one of its
/// libraries does not load.
pub open spec fn may_lack_machine(error: mlua::Error) -> bool {
    may_fail_to_start(error) || exists|library: Library| #[trigger] may_fail_to_load(library, error)
}

/// A new machine for a script. That its memory cannot be limited is no reason to do without it.
pub fn new_machine() -> (r: Result<mlua::Lua, mlua::Error>)
    ensures
        r is Ok ==> sandboxed(r->Ok_0) && texts_run(r->Ok_0).len() == 0 && calls_made(
            r->Ok_0,
        ).len() == 0,
        r is Err ==> may_lack_machine(r->Err_0),
{
    let mut lua = bare_machine()?;
    load_library(&mut lua, Library::Tables)?;
    load_library(&mut lua, Library::Strings)?;
    load_library(&mut lua, Library::Maths)?;
    load_library(&mut lua, Library::Files)?;
    let _limited = limit_memory(&mut lua, MEMORY_LIMIT);
    Ok(lua)
}

/// What a script is judged to be by its global `decide`.
pub open spec fn judged(is_function: Result<bool, mlua::Error>) -> Result<(), LoadError> {
    match is_function {
        Ok(true) => Ok(()),
        Ok(false) => Err(LoadError::NoDecide),
        Err(e) => Err(LoadError::Lookup(e)),
    }
}

/// Whether loading a script into a machine can end so: its text is run there under its path, and
/// where that does not fail, the global `decide` that the machine then has is judged.
pub open spec fn may_load(
    machine: int,
    source: Seq<char>,
    path: Seq<char>,
    reply: Result<(), LoadError>,
) -> bool {
    exists|ran|
        #![trigger may_run(machine, source, path, ran)]
        may_run(machine, source, path, ran) && match ran {
            Ok(()) => exists|is_function|
                #![trigger may_be_function(machine, seq![(source, path)], "decide"@, is_function)]
                may_be_function(machine, seq![(source, path)], "decide"@, is_function) && reply
                    == judged(is_function),
            Err(e) => reply == Err::<(), LoadError>(LoadError::Evaluation(e)),
        }
}

/// Runs a script's text in a machine in which nothing was run yet, and looks for `decide`.
fn load_script(lua: &mut mlua::Lua, source: &str, path: &str) -> (r: Result<(), LoadError>)
    requires
        texts_run(*old(lua)).len() == 0,
    ensures
        may_load(machine(*old(lua)), source@, path@, r),
        machine(*final(lua)) == machine(*old(lua)),
        texts_run(*final(lua)) == seq![(source@, path@)],
        calls_made(*final(lua)) == calls_made(*old(lua)),
        libraries(*final(lua)) == libraries(*old(lua)),
        memory_limit(*final(lua)) == memory_limit(*old(lua)),
{
    let ran = run_chunk(lua, source, path);
    proof {
        assert(texts_run(*lua) =~= seq![(source@, path@)]);
    }
    match ran {
        Ok(()) => judge_decide(global_is_function(lua, "decide")),
        Err(e) => Err(LoadError::Evaluation(e)),
    }
}

/// Whether registration can reply so in a machine of its own, before any script is run there.
pub open spec fn may_register<R: Fn(&mlua::Lua) -> Result<(), mlua::Error>>(
    register: R,
    lua: mlua::Lua,
    reply: Result<(), mlua::Error>,
) -> bool {
    sandboxed(lua) && texts_run(lua).len() == 0 && call_ensures(register, (&lua,), reply)
}

/// Whether a script can be loaded so after the functions for scripts were registered, and into the
/// machine in which they were.
pub open spec fn may_load_registered<R: Fn(&mlua::Lua) -> Result<(), mlua::Error>>(
    machine_of: int,
    source: Seq<char>,
    path: Seq<char>,
    register: R,
    reply: Result<(), LoadError>,
) -> bool {
    &&& exists|before: mlua::Lua, registered: Result<(), mlua::Error>| #[trigger]
        may_register(register, before, registered) && registered is Ok && machine(before)
            == machine_of
    &&& may_load(machine_of, source, path, reply)
}

/// Whether setting a script up can end so: in a machine of its own, with the functions for scripts
/// added before the script is loaded. What is kept is the machine that the script was loaded into,
/// nothing else was run there, and nothing was called there yet.
pub open spec fn may_set_up<R: Fn(&mlua::Lua) -> Result<(), mlua::Error>>(
    source: Seq<char>,
    path: Seq<char>,
    register: R,
    r: Result<mlua::Lua, LoadError>,
) -> bool {
    match r {
        Ok(lua) => {
            &&& sandboxed(lua)
            &&& texts_run(lua) == seq![(source, path)]
            &&& calls_made(lua).len() == 0
            &&& may_load_registered(machine(lua), source, path, register, Ok(()))
        },
        Err(LoadError::Machine(e)) => may_lack_machine(e),
        Err(LoadError::Registration(e)) => exists|
            lua: mlua::Lua,
            reply: Result<(), mlua::Error>,
        | #[trigger]
            may_register(register, lua, reply) && reply is Err && reply->Err_0 == e,
        Err(e) => exists|m: int| #[trigger]
            may_load_registered(m, source, path, register, Err(e)),
    }
}

/// Sets a script up in a machine of its own.
fn set_up<R: Fn(&mlua::Lua) -> Result<(), mlua::Error>>(source: &str, path: &str, register: &R) -> (r:
    Result<mlua::Lua, LoadError>)
    requires
        forall|lua: &mlua::Lua| call_requires(*register, (lua,)),
    ensures
        may_set_up(source@, path@, *register, r),
{
    let mut lua = match new_machine() {
        Ok(lua) => lua,
        Err(e) => return Err(LoadError::Machine(e)),
    };
    let registered = register(&lua);
    let ghost before = lua;
    proof {
        assert(may_register(*register, before, registered));
    }
    match registered {
        Ok(()) => {},
        Err(e) => return Err(LoadError::Registration(e)),
    }
    let loaded = load_script(&mut lua, source, path);
    proof {
        assert(may_load_registered(machine(lua), source@, path@, *register, loaded));
    }
    match loaded {
        Ok(()) => Ok(lua),
        Err(e) => Err(e),
    }
}

/// A script is accepted exactly where its global `decide` is a function.
pub fn judge_decide(is_function: Result<bool, mlua::Error>) -> (r: Result<(), LoadError>)
    ensures
        r == judged(is_function),
{
    match is_function {
        Ok(true) => Ok(()),
        Ok(false) => Err(LoadError::NoDecide),
        Err(e) => Err(LoadError::Lookup(e)),
    }
}

/// Whether what the script of a machine says of itself can be read so: it says both its name and
/// its version in the global table `POLICY_META`, or nothing.
pub open spec fn may_say(lua: mlua::Lua, meta: Option<PolicyMeta>) -> bool {
    exists|table|
        #![trigger may_be_table(machine(lua), texts_run(lua), "POLICY_META"@, table)]
        may_be_table(machine(lua), texts_run(lua), "POLICY_META"@, table) && match table {
            Ok(t) => exists|name|
                #![trigger may_give_text(t, "name"@, name)]
                may_give_text(t, "name"@, name) && match name {
                    Ok(n) => exists|version|
                        #![trigger may_give_text(t, "version"@, version)]
                        may_give_text(t, "version"@, version) && meta == match version {
                            Ok(v) => Some(PolicyMeta { name: n, version: v }),
                            Err(_) => None,
                        },
                    Err(_) => meta is None,
                },
            Err(_) => meta is None,
        }
}

fn policy_meta(lua: &mlua::Lua) -> (r: Option<PolicyMeta>)
    ensures
        may_say(*lua, r),
{
    match global_table(lua, "POLICY_META") {
        Ok(meta) => match text_field(lua, &meta, "name") {
            Ok(name) => match text_field(lua, &meta, "version") {
                Ok(version) => Some(PolicyMeta { name, version }),
                Err(_) => None,
            },
            Err(_) => None,
        },
        Err(_) => None,
    }
}

impl LuaPolicy {
    /// The script is out of use exactly after the threshold of failures in a row.
    pub open spec fn wf(self) -> bool {
        &&& self.consecutive_errors <= FALLBACK_ERROR_THRESHOLD
        &&& self.permanent_fallback <==> self.consecutive_errors == FALLBACK_ERROR_THRESHOLD
    }

    /// A policy that has seen nothing yet.
    pub open spec fn fresh(self, path: Seq<char>, config: AdaptationConfig) -> bool {
        &&& self.script_path@ == path
        &&& self.signal_state == SignalState::unread()
        &&& self.trigger_engine == TriggerEngine::new(config.trigger)
        &&& self.engine_state is None
        &&& self.adaptation_config == config
        &&& self.consecutive_errors == 0
        &&& self.last_failure is None
        &&& !self.permanent_fallback
        &&& self.dropped_actions == 0
    }

    /// Loads a script into a machine of its own, after `register` has added its functions to that,
    /// and starts a policy on it. Whether the script loads, and what it says of itself, is up to
    /// the script.
    pub fn new<R: Fn(&mlua::Lua) -> Result<(), mlua::Error>>(
        source: &str,
        script_path: &str,
        config: AdaptationConfig,
        register: &R,
    ) -> (r: Result<LuaPolicy, LoadError>)
        requires
            forall|lua: &mlua::Lua| call_requires(*register, (lua,)),
        ensures
            match r {
                Ok(p) => {
                    &&& may_set_up(source@, script_path@, *register, Ok(p.lua))
                    &&& may_say(p.lua, p.policy_meta)
                    &&& p.fresh(script_path@, config)
                    &&& p.wf()
                },
                Err(e) => may_set_up(source@, script_path@, *register, Err(e)),
            },
    {
        let lua = match set_up(source, script_path, register) {
            Ok(lua) => lua,
            Err(e) => return Err(e),
        };
        let meta = policy_meta(&lua);
        Ok(
            LuaPolicy {
                lua,
                script_path: script_path.to_owned(),
                policy_meta: meta,
                signal_state: SignalState::default(),
                trigger_engine: TriggerEngine::new(config.trigger),
                engine_state: None,
                adaptation_config: config,
                consecutive_errors: 0,
                last_failure: None,
                permanent_fallback: false,
                dropped_actions: 0,
            },
        )
    }

    /// The machine that the script runs in.
    pub fn lua(&self) -> (r: &mlua::Lua)
        ensures
            *r == self.lua,
    {
        &self.lua
    }

    /// Per-axis pressure from the latest readings.
    pub open spec fn spec_pressure(&self) -> Pressure6D {
        self.signal_state.pressure_with_thermal(
            self.adaptation_config.temp_safe_c,
            self.adaptation_config.temp_critical_c,
            self.trigger_engine.tbt.degradation_ratio(),
        )
    }

    #[verifier::when_used_as_spec(spec_pressure)]
    pub fn pressure(&self) -> (r: Pressure6D)
        ensures
            r == self.pressure(),
    {
        self.signal_state.pressure_with_thermal(
            self.adaptation_config.temp_safe_c,
            self.adaptation_config.temp_critical_c,
            self.trigger_engine.tbt_degradation_ratio(),
        )
    }

    /// What a script gets to see now.
    pub open spec fn context(self) -> Map<Seq<char>, Field> {
        ctx_fields(
            self.pressure(),
            self.trigger_engine.trigger,
            self.signal_state,
            self.engine_state,
        )
    }

    /// Whether the script of this policy's machine can answer so to what it gets to see.
    pub open spec fn may_be_told(self, answer: Result<Answer, mlua::Error>) -> bool {
        may_answer(
            machine(self.lua),
            texts_run(self.lua),
            "decide"@,
            self.context(),
            answer,
        )
    }

    /// Whether `lua` is this policy's machine after `decide` was called there once more, with what
    /// the script gets to see now.
    pub open spec fn asked_once(self, lua: mlua::Lua) -> bool {
        called_once(self.lua, lua, "decide"@, self.context())
    }

    /// Whether calling `decide` can come out so and leave this machine behind. A decision is what
    /// `decide` answered to the one call of it; a failure is one of that call, or one of building
    /// what the script gets to see, and then nothing was called.
    pub open spec fn may_come_out(self, outcome: Outcome, lua: mlua::Lua) -> bool {
        match outcome {
            Ok(decision) => self.asked_once(lua) && exists|answer: Answer|
                #![trigger decision_read(answer, decision)]
                self.may_be_told(Ok(answer)) && decision_read(answer, decision),
            Err(e) => {
                ||| may_fail_to_build(e) && lua == self.lua
                ||| self.may_be_told(Err(e)) && self.asked_once(lua)
            },
        }
    }

    /// Calls the script's `decide` once on what is known now.
    fn ask_script(&mut self) -> (r: Outcome)
        ensures
            old(self).may_come_out(r, final(self).lua),
            *final(self) == (LuaPolicy { lua: final(self).lua, ..*old(self) }),
    {
        let pressure: Pressure6D = self.pressure();
        let engine: Option<&EngineStatus> = match &self.engine_state {
            Some(st) => Some(st),
            None => None,
        };
        match build_ctx(
            &self.lua,
            &pressure,
            self.trigger_engine.state(),
            &self.signal_state,
            engine,
        ) {
            Ok(ctx) => match call_global(&mut self.lua, "decide", ctx) {
                Ok(answer) => Ok(read_decision(&self.lua, answer)),
                Err(e) => Err(e),
            },
            Err(e) => Err(e),
        }
    }

    /// The policy after an outcome. A decision clears the failures, whatever it holds; a failure
    /// counts, and the last of a row puts the script out of use.
    pub open spec fn after_outcome(self, outcome: Outcome) -> LuaPolicy {
        match outcome {
            Ok(decision) => LuaPolicy {
                consecutive_errors: 0,
                last_failure: None,
                dropped_actions: counted(self.dropped_actions, refused(decision)),
                ..self
            },
            Err(e) => LuaPolicy {
                consecutive_errors: (self.consecutive_errors + 1) as u32,
                last_failure: Some(e),
                permanent_fallback: self.permanent_fallback || self.consecutive_errors + 1
                    >= FALLBACK_ERROR_THRESHOLD,
                ..self
            },
        }
    }

    /// The commands that come of an outcome.
    pub open spec fn commands_of(outcome: Outcome, signal: SystemSignal) -> Seq<EngineCommand> {
        match outcome {
            Ok(decision) => actions(decision),
            Err(_) => fallback_commands(signal),
        }
    }

    /// Acts on what came of calling the script.
    pub fn apply_outcome(&mut self, outcome: Outcome, signal: &SystemSignal) -> (r: Vec<
        EngineCommand,
    >)
        requires
            old(self).wf(),
            !old(self).permanent_fallback,
        ensures
            final(self).wf(),
            *final(self) == old(self).after_outcome(outcome),
            r@ == LuaPolicy::commands_of(outcome, *signal),
    {
        match outcome {
            Ok(decision) => {
                let commands = parse_actions(&decision, &mut self.dropped_actions);
                self.consecutive_errors = 0;
                self.last_failure = None;
                commands
            },
            Err(e) => {
                self.consecutive_errors = self.consecutive_errors + 1;
                self.last_failure = Some(e);
                if self.consecutive_errors >= FALLBACK_ERROR_THRESHOLD {
                    self.permanent_fallback = true;
                }
                fallback_decide(signal)
            },
        }
    }

    /// What a call may do: where the script is out of use, the fallback decides and nothing
    /// changes; else the script is called once, and what came out is acted on.
    pub open spec fn decided(
        self,
        signal: SystemSignal,
        commands: Seq<EngineCommand>,
        after: LuaPolicy,
    ) -> bool {
        if self.permanent_fallback {
            commands == fallback_commands(signal) && after == self
        } else {
            exists|outcome: Outcome|
                #![trigger self.may_come_out(outcome, after.lua)]
                self.may_come_out(outcome, after.lua) && after == (LuaPolicy {
                    lua: after.lua,
                    ..self
                }).after_outcome(outcome) && commands == LuaPolicy::commands_of(outcome, signal)
        }
    }

    /// Calls `decide`, or falls back where the machine fails.
    ///
    /// Three failures of the machine in a row put the script out of use. A script that merely
    /// returns what this manager cannot express is no failure: that is counted, because to give
    /// up on it would hide a working script behind one bad branch.
    pub fn call_decide(&mut self, signal: &SystemSignal) -> (r: Vec<EngineCommand>)
        requires
            old(self).wf(),
        ensures
            final(self).wf(),
            old(self).decided(*signal, r@, *final(self)),
    {
        if self.permanent_fallback {
            return fallback_decide(signal);
        }
        let outcome = self.ask_script();
        self.apply_outcome(outcome, signal)
    }

    /// The share of memory that is taken, as the memory trigger sees it.
    pub open spec fn memory_share(available_bytes: u64, total_bytes: u64) -> F64 {
        if total_bytes > 0 {
            (F64 { bits: 0x3ff0_0000_0000_0000 }).minus(
                F64::from_whole(available_bytes).over(F64::from_whole(total_bytes)),
            )
        } else {
            F64 { bits: 0 }
        }
    }

    /// The policy after a reading, before anything is decided.
    pub open spec fn with_reading(self, signal: SystemSignal) -> LuaPolicy {
        match signal {
            SystemSignal::MemoryPressure { available_bytes, total_bytes, .. } => LuaPolicy {
                signal_state: SignalState {
                    mem_available: available_bytes,
                    mem_total: total_bytes,
                    ..self.signal_state
                },
                trigger_engine: self.trigger_engine.with_mem(
                    Self::memory_share(available_bytes, total_bytes),
                ),
                ..self
            },
            SystemSignal::ComputeGuidance { cpu_usage_pct, gpu_usage_pct, .. } => LuaPolicy {
                signal_state: SignalState {
                    cpu_pct: cpu_usage_pct,
                    gpu_pct: gpu_usage_pct,
                    ..self.signal_state
                },
                ..self
            },
            SystemSignal::ThermalAlert { temperature_mc, throttling_active, .. } => {
                let heated = LuaPolicy {
                    signal_state: SignalState {
                        temp_mc: temperature_mc,
                        throttling: throttling_active,
                        ..self.signal_state
                    },
                    ..self
                };
                LuaPolicy {
                    trigger_engine: self.trigger_engine.with_temp(
                        heated.pressure().thermal.widen(),
                    ),
                    ..heated
                }
            },
            SystemSignal::EnergyConstraint { .. } => self,
        }
    }

    fn take_reading(&mut self, signal: &SystemSignal)
        ensures
            *final(self) == old(self).with_reading(*signal),
    {
        match signal {
            SystemSignal::MemoryPressure { available_bytes, total_bytes, .. } => {
                self.signal_state.update_memory(*available_bytes, *total_bytes);
                let p: F64 = if *total_bytes > 0 {
                    let one: F64 = F64 { bits: 0x3ff0_0000_0000_0000 };
                    one.minus(F64::from_whole(*available_bytes).over(F64::from_whole(*total_bytes)))
                } else {
                    F64 { bits: 0 }
                };
                self.trigger_engine.update_mem(p);
            },
            SystemSignal::ComputeGuidance { cpu_usage_pct, gpu_usage_pct, .. } => {
                self.signal_state.update_compute(*cpu_usage_pct, *gpu_usage_pct);
            },
            SystemSignal::ThermalAlert { temperature_mc, throttling_active, .. } => {
                self.signal_state.update_thermal(*temperature_mc, *throttling_active);
                let normalized: F64 = self.pressure().thermal.widen();
                self.trigger_engine.update_temp(normalized);
            },
            SystemSignal::EnergyConstraint { .. } => {},
        }
    }

    /// The policy after a message of the engine. Only a heartbeat changes it.
    pub open spec fn with_message(self, msg: EngineMessage) -> LuaPolicy {
        match msg {
            EngineMessage::Heartbeat(status) => LuaPolicy {
                trigger_engine: self.trigger_engine.with_tbt_ms(status.tbt_ms.widen()),
                engine_state: Some(status),
                ..self
            },
            EngineMessage::Response(_) => self,
        }
    }

    /// The mode that the triggers stand for. Memory has a hard floor under it, because a process
    /// that crosses it is killed, so it is not the same kind of event as a warm chip or a slow
    /// token.
    pub open spec fn mode_of(t: TriggerState) -> OperatingMode {
        if t.mem_low {
            OperatingMode::Critical
        } else if t.temp_high || t.tbt_degraded {
            OperatingMode::Warning
        } else {
            OperatingMode::Normal
        }
    }
}

impl PolicyStrategy for LuaPolicy {
    open spec fn valid(&self) -> bool {
        self.wf()
    }

    open spec fn may_process(
        &self,
        signal: SystemSignal,
        commands: Seq<EngineCommand>,
        after: LuaPolicy,
    ) -> bool {
        self.with_reading(signal).decided(signal, commands, after)
    }

    open spec fn updated(&self, msg: EngineMessage) -> LuaPolicy {
        self.with_message(msg)
    }

    /// This policy observes nothing.
    open spec fn uncounted(&self) -> LuaPolicy {
        *self
    }

    open spec fn current_mode(&self) -> OperatingMode {
        Self::mode_of(self.trigger_engine.trigger)
    }

    open spec fn shown(&self) -> Seq<Shown> {
        let p = self.pressure();
        let s = Seq::<Shown>::empty()
            .push(Shown::Number("pressure_gpu"@, p.gpu))
            .push(Shown::Number("pressure_cpu"@, p.cpu))
            .push(Shown::Number("pressure_memory"@, p.memory))
            .push(Shown::Number("pressure_thermal"@, p.thermal))
            .push(Shown::Number("pressure_latency"@, p.latency))
            .push(Shown::Count("dropped_actions"@, self.dropped_actions));
        match self.policy_meta {
            Some(m) => s.push(Shown::Text("policy_name"@, m.name@)).push(
                Shown::Text("policy_version"@, m.version@),
            ),
            None => s,
        }
    }

    fn process_signal(&mut self, signal: &SystemSignal, ids: &mut SeqCounter) -> (r: Option<
        EngineDirective,
    >) {
        self.take_reading(signal);
        let commands = self.call_decide(signal);
        if commands.len() == 0 {
            proof {
                assert(commands@ == Seq::<EngineCommand>::empty());
            }
            return None;
        }
        Some(EngineDirective { seq_id: next_seq_id(ids), commands })
    }

    fn update_engine_state(&mut self, msg: &EngineMessage) {
        match msg {
            EngineMessage::Heartbeat(status) => {
                self.trigger_engine.update_tbt_ms(status.tbt_ms.widen());
                self.engine_state = Some(*status);
            },
            EngineMessage::Response(_) => {},
        }
    }

    fn mode(&self) -> (r: OperatingMode) {
        let t: &TriggerState = self.trigger_engine.state();
        if t.mem_low {
            OperatingMode::Critical
        } else if t.temp_high || t.tbt_degraded {
            OperatingMode::Warning
        } else {
            OperatingMode::Normal
        }
    }

    fn inspect_state<V: PolicyVisitor>(&mut self, visitor: &mut V) {
        broadcast use lemma_visited_one_more;

        let p: Pressure6D = self.pressure();
        visitor.record_f32("pressure_gpu", p.gpu);
        visitor.record_f32("pressure_cpu", p.cpu);
        visitor.record_f32("pressure_memory", p.memory);
        visitor.record_f32("pressure_thermal", p.thermal);
        visitor.record_f32("pressure_latency", p.latency);
        visitor.record_u64("dropped_actions", self.dropped_actions);
        if let Some(m) = &self.policy_meta {
            visitor.record_string("policy_name", m.name.as_str());
            visitor.record_string("policy_version", m.version.as_str());
        }
    }

    fn cancel_last_observation(&mut self) {
    }

    type Reloadable = LuaPolicy;

    fn as_reloadable(&mut self) -> (r: Option<&mut LuaPolicy>)
        ensures
            r is Some,
            *r->Some_0 == *old(self),
            *final(self) == *final(r->Some_0),
    {
        Some(self)
    }
}

impl ReloadablePolicy for LuaPolicy {
    open spec fn reloadable(&self) -> bool {
        self.wf()
    }

    type Failure = LoadError;

    /// Replaces the script only where the new one loads. The readings, the triggers and the count
    /// of dropped actions stay; the failures are forgotten.
    fn reload_script<R: Fn(&mlua::Lua) -> Result<(), mlua::Error>>(
        &mut self,
        source: &str,
        path: &str,
        register: &R,
    ) -> (r: Result<(), LoadError>)
        ensures
            match r {
                Ok(()) => {
                    &&& may_set_up(source@, path@, *register, Ok(final(self).lua))
                    &&& may_say(final(self).lua, final(self).policy_meta)
                    &&& final(self).script_path@ == path@
                    &&& *final(self) == (LuaPolicy {
                        lua: final(self).lua,
                        script_path: final(self).script_path,
                        policy_meta: final(self).policy_meta,
                        consecutive_errors: 0,
                        last_failure: None,
                        permanent_fallback: false,
                        ..*old(self)
                    })
                },
                Err(e) => may_set_up(source@, path@, *register, Err(e)),
            },
    {
        let lua = match set_up(source, path, register) {
            Ok(lua) => lua,
            Err(e) => return Err(e),
        };
        self.policy_meta = policy_meta(&lua);
        self.lua = lua;
        self.script_path = path.to_owned();
        self.consecutive_errors = 0;
        self.last_failure = None;
        self.permanent_fallback = false;
        Ok(())
    }

    fn script_path(&self) -> (r: Option<&str>)
        ensures
            r is Some,
            r->Some_0@ == self.script_path@,
    {
        Some(self.script_path.as_str())
    }
}

/// A script that is set up is the one that decides: its text was run in the machine that is kept,
/// nothing else was, and the global `decide` of that machine is a function.
pub proof fn law_kept_machine_has_the_script<R: Fn(&mlua::Lua) -> Result<(), mlua::Error>>(
    source: Seq<char>,
    path: Seq<char>,
    register: R,
    lua: mlua::Lua,
)
    requires
        may_set_up(source, path, register, Ok(lua)),
    ensures
        texts_run(lua) == seq![(source, path)],
        exists|ran: Result<(), mlua::Error>| #[trigger]
            may_run(machine(lua), source, path, ran) && ran is Ok,
        may_be_function(machine(lua), texts_run(lua), "decide"@, Ok(true)),
{
}

/// A policy after a row of outcomes. Once the script is out of use, it is not called.
pub open spec fn after_outcomes(p: LuaPolicy, outcomes: Seq<Outcome>) -> LuaPolicy
    decreases outcomes.len(),
{
    if outcomes.len() == 0 {
        p
    } else {
        let before = after_outcomes(p, outcomes.drop_last());
        if before.permanent_fallback {
            before
        } else {
            before.after_outcome(outcomes.last())
        }
    }
}

/// Whether three failures stand in a row, the first of them at `i`.
pub open spec fn three_failures_at(outcomes: Seq<Outcome>, i: int) -> bool {
    0 <= i && i + 3 <= outcomes.len() && outcomes[i] is Err && outcomes[i + 1] is Err
        && outcomes[i + 2] is Err
}

/// How many failures stand at the end.
spec fn failures_at_end(outcomes: Seq<Outcome>) -> nat
    decreases outcomes.len(),
{
    if outcomes.len() > 0 && outcomes.last() is Err {
        1 + failures_at_end(outcomes.drop_last())
    } else {
        0
    }
}

proof fn lemma_failures_at_end(outcomes: Seq<Outcome>)
    ensures
        failures_at_end(outcomes) <= outcomes.len(),
        forall|i: int|
            outcomes.len() - failures_at_end(outcomes) <= i < outcomes.len() ==> (
            #[trigger] outcomes[i]) is Err,
    decreases outcomes.len(),
{
    if outcomes.len() > 0 && outcomes.last() is Err {
        let shorter = outcomes.drop_last();
        lemma_failures_at_end(shorter);
        assert forall|i: int|
            outcomes.len() - failures_at_end(outcomes) <= i < outcomes.len() implies (
        #[trigger] outcomes[i]) is Err by {
            if i < shorter.len() {
                assert(shorter[i] is Err);
            }
        }
    }
}

proof fn lemma_failures_are_counted(p: LuaPolicy, outcomes: Seq<Outcome>)
    requires
        p.wf(),
        p.consecutive_errors == 0,
    ensures
        ({
            let q = after_outcomes(p, outcomes);
            &&& q.wf()
            &&& q.permanent_fallback ==> exists|i: int| #[trigger] three_failures_at(outcomes, i)
            &&& !q.permanent_fallback ==> {
                &&& q.consecutive_errors == failures_at_end(outcomes)
                &&& forall|i: int| !#[trigger] three_failures_at(outcomes, i)
            }
        }),
    decreases outcomes.len(),
{
    if outcomes.len() > 0 {
        let shorter = outcomes.drop_last();
        lemma_failures_are_counted(p, shorter);
        let before = after_outcomes(p, shorter);
        let n = outcomes.len() as int;
        if before.permanent_fallback {
            let i = choose|i: int| #[trigger] three_failures_at(shorter, i);
            assert(three_failures_at(outcomes, i));
        } else if after_outcomes(p, outcomes).permanent_fallback {
            lemma_failures_at_end(outcomes);
            assert(three_failures_at(outcomes, n - 3));
        } else {
            assert forall|i: int| !#[trigger] three_failures_at(outcomes, i) by {
                if three_failures_at(outcomes, i) {
                    if i + 3 < n {
                        assert(three_failures_at(shorter, i));
                    } else {
                        reveal_with_fuel(failures_at_end, 4);
                        assert(shorter.last() is Err);
                        assert(shorter.drop_last().last() is Err);
                    }
                }
            }
        }
    }
}

/// From a fresh start the script is out of use exactly where somewhere three failures of the
/// machine stand in a row.
pub proof fn law_latched_exactly_after_three_in_a_row(p: LuaPolicy, outcomes: Seq<Outcome>)
    requires
        p.wf(),
        p.consecutive_errors == 0,
    ensures
        after_outcomes(p, outcomes).permanent_fallback <==> exists|i: int| #[trigger]
            three_failures_at(outcomes, i),
{
    lemma_failures_are_counted(p, outcomes);
}

/// A decision clears the failures before it, whatever it holds: a script that only asks for what
/// cannot be expressed is never put out of use.
pub proof fn law_decision_clears_failures(p: LuaPolicy, decision: Decision)
    requires
        p.wf(),
        !p.permanent_fallback,
    ensures
        p.after_outcome(Ok(decision)).wf(),
        p.after_outcome(Ok(decision)).consecutive_errors == 0,
        !p.after_outcome(Ok(decision)).permanent_fallback,
{
}

/// Once the script is out of use, no signal and no message brings it back, and every signal is
/// answered by the fallback alone.
pub proof fn law_fallback_is_permanent(
    p: LuaPolicy,
    signal: SystemSignal,
    commands: Seq<EngineCommand>,
    after: LuaPolicy,
    msg: EngineMessage,
)
    requires
        p.permanent_fallback,
        p.with_reading(signal).decided(signal, commands, after),
    ensures
        after.permanent_fallback,
        commands == fallback_commands(signal),
        p.with_message(msg).permanent_fallback,
{
}

/// Whatever decides, every compression that is sent has a budget that can be sent: finite, above
/// zero and at most one.
pub proof fn law_sent_budgets_are_usable(
    p: LuaPolicy,
    signal: SystemSignal,
    commands: Seq<EngineCommand>,
    after: LuaPolicy,
)
    requires
        p.decided(signal, commands, after),
    ensures
        forall|i: int|
            0 <= i < commands.len() ==> match #[trigger] commands[i] {
                EngineCommand::KvCompress { budget } => usable_budget(budget),
                _ => true,
            },
{
    if !p.permanent_fallback {
        let outcome = choose|outcome: Outcome|
            #![trigger p.may_come_out(outcome, after.lua)]
            p.may_come_out(outcome, after.lua) && after == (LuaPolicy {
                lua: after.lua,
                ..p
            }).after_outcome(outcome) && commands == LuaPolicy::commands_of(outcome, signal);
        if let Ok(decision) = outcome {
            law_budgets_are_usable(decision);
        }
    }
}

/// This policy shows no overruns of observations, so their count is always zero.
pub proof fn law_no_overruns(p: LuaPolicy)
    ensures
        visited::<OverrunCollector>(0, p.shown()) == 0,
{
    broadcast use lemma_visited_one_more;

    reveal_strlit("dropped_actions");
    reveal_strlit("observation_overrun_count");
    assert("dropped_actions"@.len() == 15 && "observation_overrun_count"@.len() == 25);
    assert(visited::<OverrunCollector>(0, Seq::<Shown>::empty()) == 0);
}

/// How hard a mode is.
pub open spec fn hardness(mode: OperatingMode) -> int {
    match mode {
        OperatingMode::Normal => 0,
        OperatingMode::Warning => 1,
        OperatingMode::Critical => 2,
    }
}

/// Memory decides the mode first: it is critical exactly where memory is low, a warning exactly for
/// a warm chip or slow tokens without that, and normal exactly where no trigger is set off.
pub proof fn law_mode_follows_triggers(t: TriggerState)
    ensures
        LuaPolicy::mode_of(t) == OperatingMode::Critical <==> t.mem_low,
        LuaPolicy::mode_of(t) == OperatingMode::Warning <==> !t.mem_low && (t.temp_high
            || t.tbt_degraded),
        LuaPolicy::mode_of(t) == OperatingMode::Normal <==> !t.mem_low && !t.temp_high
            && !t.tbt_degraded,
{
}

/// A trigger more never makes the mode milder.
pub proof fn law_more_triggers_never_lower_the_mode(t: TriggerState, more: TriggerState)
    requires
        t.mem_low ==> more.mem_low,
        t.temp_high ==> more.temp_high,
        t.tbt_degraded ==> more.tbt_degraded,
    ensures
        hardness(LuaPolicy::mode_of(t)) <= hardness(LuaPolicy::mode_of(more)),
{
}

/// A signal is put to the script at most once, and in the machine that it was loaded into: once
/// where a decision came of it, and not at all where the script is out of use.
pub proof fn law_script_is_asked_at_most_once(
    p: LuaPolicy,
    signal: SystemSignal,
    commands: Seq<EngineCommand>,
    after: LuaPolicy,
)
    requires
        p.wf(),
        p.decided(signal, commands, after),
    ensures
        machine(after.lua) == machine(p.lua),
        texts_run(after.lua) == texts_run(p.lua),
        calls_made(after.lua) == calls_made(p.lua) || calls_made(after.lua) == calls_made(
            p.lua,
        ).push(("decide"@, p.context())),
        p.permanent_fallback ==> calls_made(after.lua) == calls_made(p.lua),
        !p.permanent_fallback && after.consecutive_errors == 0 ==> p.asked_once(after.lua),
{
}

} // verus!
