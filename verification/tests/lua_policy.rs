use argus_manager::config::AdaptationConfig;
use argus_manager::float::{F32, F64};
use argus_manager::lua::decision::{parse_actions, parse_single_action, ActionError, Decision, Entry};
use argus_manager::lua_policy::{
    judge_decide, new_machine, LoadError, LuaPolicy, FALLBACK_ERROR_THRESHOLD,
};
use argus_manager::pipeline::{
    get_observation_overrun_count, PolicyStrategy, Record, ReloadablePolicy, SeqCounter,
    StateRecorder,
};
use argus_manager::signal::{EnergyReason, Level, SystemSignal};
use argus_manager::types::OperatingMode;
use argus_manager::wire::{
    CommandResponse, EngineCommand, EngineMessage, EngineState, EngineStatus, Phase,
};
use mlua::Lua;

fn s(x: f32) -> F32 {
    F32 { bits: x.to_bits() }
}

fn mem(level: Level, available: u64) -> SystemSignal {
    SystemSignal::MemoryPressure {
        level,
        available_bytes: available,
        total_bytes: 1000,
        reclaim_target_bytes: 0,
    }
}

fn hot(temperature_mc: i32) -> SystemSignal {
    SystemSignal::ThermalAlert {
        level: Level::Warning,
        temperature_mc,
        throttling_active: false,
        throttle_ratio: F64 { bits: 0 },
    }
}

fn heartbeat(tbt_ms: f32) -> EngineMessage {
    EngineMessage::Heartbeat(EngineStatus {
        kv_cache_bytes: 1024,
        kv_cache_budget_bytes: 4096,
        kv_cache_tokens: 32,
        tbt_ms: s(tbt_ms),
        phase: Phase::Decode,
        state: EngineState::Running,
    })
}

/// Adds no functions to a machine.
fn nothing(_: &Lua) -> mlua::Result<()> {
    Ok(())
}

fn policy(script: &str) -> LuaPolicy {
    match LuaPolicy::new(script, "policy.lua", AdaptationConfig::default(), &nothing) {
        Ok(p) => p,
        Err(e) => panic!("{e:?}"),
    }
}

fn commands(p: &mut LuaPolicy, signal: &SystemSignal) -> Vec<EngineCommand> {
    let mut ids = SeqCounter::new();
    match p.process_signal(signal, &mut ids) {
        Some(d) => d.commands,
        None => Vec::new(),
    }
}

fn compress(budget: f32) -> EngineCommand {
    EngineCommand::KvCompress { budget: s(budget) }
}

#[test]
fn a_script_decides() {
    let mut p = policy(
        "function decide(ctx)
            if ctx.trigger.mem_low then return { type = 'kv.compress', budget = 0.5 } end
            if ctx.engine.seen then return { { type = 'suspend' }, { type = 'resume' } } end
            return nil
        end",
    );
    let mut ids = SeqCounter::new();
    assert!(p.process_signal(&mem(Level::Normal, 900), &mut ids).is_none());
    let d = p.process_signal(&mem(Level::Critical, 100), &mut ids).unwrap();
    assert_eq!(d.seq_id, 1);
    assert_eq!(d.commands, vec![compress(0.5)]);
    p.update_engine_state(&heartbeat(12.5));
    let d = p.process_signal(&mem(Level::Normal, 900), &mut ids).unwrap();
    assert_eq!(d.seq_id, 2);
    assert_eq!(d.commands, vec![EngineCommand::Suspend, EngineCommand::Resume]);
    assert_eq!(p.dropped_actions, 0);
}

#[test]
fn a_script_sees_what_was_read() {
    let mut p = policy(
        "function decide(ctx)
            seen = ctx
            return { type = 'kv.compress', budget = ctx.engine.kv_fill or 1 }
        end",
    );
    p.update_engine_state(&heartbeat(12.5));
    assert_eq!(commands(&mut p, &mem(Level::Normal, 250)), vec![compress(0.25)]);
    let seen: mlua::Table = p.lua().globals().get("seen").unwrap();
    let pressure: mlua::Table = seen.get("pressure").unwrap();
    assert_eq!(pressure.get::<f32>("memory").unwrap(), 0.75);
}

#[test]
fn no_action_is_nil_or_an_empty_table() {
    let mut p = policy("function decide(ctx) return nil end");
    assert!(commands(&mut p, &mem(Level::Emergency, 1)).is_empty());
    let mut p = policy("function decide(ctx) return {} end");
    assert!(commands(&mut p, &mem(Level::Emergency, 1)).is_empty());
    assert_eq!(p.dropped_actions, 0);
    assert_eq!(p.consecutive_errors, 0);
}

#[test]
fn what_cannot_be_expressed_is_dropped_and_counted() {
    let mut p = policy(
        "function decide(ctx) return {
            { type = 'kv.compress', budget = 0/0 },
            { type = 'kv.compress', budget = 1.5 },
            { type = 'kv.compress', budget = 0 },
            { type = 'kv.compress' },
            { type = 'kv.compress', budget = '0.75' },
            { type = 'throttle' },
            'suspend',
            { budget = 0.5 },
            { type = 'restore_defaults' },
        } end",
    );
    assert_eq!(
        commands(&mut p, &mem(Level::Normal, 900)),
        vec![compress(0.75), EngineCommand::RestoreDefaults]
    );
    assert_eq!(p.dropped_actions, 7);
    assert_eq!(p.consecutive_errors, 0);
    let mut p = policy("function decide(ctx) return 7 end");
    assert!(commands(&mut p, &mem(Level::Emergency, 1)).is_empty());
    assert_eq!(p.dropped_actions, 1);
    let mut p = policy("function decide(ctx) return { type = 'nothing' } end");
    for n in 1..=10u64 {
        assert!(commands(&mut p, &mem(Level::Emergency, 1)).is_empty());
        assert_eq!(p.dropped_actions, n);
    }
    assert!(!p.permanent_fallback);
}

#[test]
fn entries_and_their_errors() {
    let entry = |name: &str, budget: Option<f32>| Entry::Action {
        name: name.to_string(),
        budget: budget.map(s),
    };
    assert!(matches!(parse_single_action(&Entry::Unreadable), Err(ActionError::Unreadable)));
    assert!(matches!(
        parse_single_action(&entry("kv.compress", None)),
        Err(ActionError::NoBudget)
    ));
    for bad in [f32::NAN, f32::INFINITY, f32::NEG_INFINITY, 0.0, -0.5, 1.0000001] {
        assert!(matches!(
            parse_single_action(&entry("kv.compress", Some(bad))),
            Err(ActionError::UnusableBudget(_))
        ));
    }
    assert_eq!(parse_single_action(&entry("kv.compress", Some(1.0))).unwrap(), compress(1.0));
    assert_eq!(parse_single_action(&entry("suspend", None)).unwrap(), EngineCommand::Suspend);
    assert_eq!(parse_single_action(&entry("resume", None)).unwrap(), EngineCommand::Resume);
    match parse_single_action(&entry("Suspend", None)) {
        Err(ActionError::UnknownType(name)) => assert_eq!(name, "Suspend"),
        _ => panic!("a name is case sensitive"),
    }
    let mut dropped = u64::MAX;
    let got = parse_actions(
        &Decision::Many(vec![Entry::Unreadable, entry("suspend", None), Entry::Unreadable]),
        &mut dropped,
    );
    assert_eq!(got, vec![EngineCommand::Suspend]);
    assert_eq!(dropped, 1);
    assert!(parse_actions(&Decision::Nothing, &mut dropped).is_empty());
    assert_eq!(dropped, 1);
    assert!(parse_actions(&Decision::NotATable, &mut dropped).is_empty());
    assert_eq!(dropped, 2);
    assert_eq!(parse_actions(&Decision::One(entry("resume", None)), &mut dropped).len(), 1);
}

#[test]
fn three_failures_in_a_row_put_the_script_out_of_use() {
    let mut p = policy("function decide(ctx) error('broken') end");
    for n in 1..=2u32 {
        assert_eq!(commands(&mut p, &mem(Level::Critical, 100)), vec![compress(0.50)]);
        assert_eq!(p.consecutive_errors, n);
        assert!(!p.permanent_fallback);
    }
    assert_eq!(commands(&mut p, &mem(Level::Warning, 100)), vec![compress(0.85)]);
    assert!(p.permanent_fallback);
    assert_eq!(p.consecutive_errors, FALLBACK_ERROR_THRESHOLD);
    // The script works again, but is not called any more.
    p.lua().load("function decide(ctx) return { type = 'suspend' } end").exec().unwrap();
    assert_eq!(commands(&mut p, &mem(Level::Emergency, 100)), vec![compress(0.25)]);
    assert!(commands(&mut p, &hot(90_000)).is_empty());
    assert_eq!(p.mode(), OperatingMode::Critical);
}

#[test]
fn a_decision_clears_the_failures() {
    let mut p = policy(
        "n = 0
        function decide(ctx) n = n + 1 if n % 3 ~= 0 then error('now and then') end return nil end",
    );
    for _ in 0..12 {
        commands(&mut p, &mem(Level::Critical, 100));
    }
    assert!(!p.permanent_fallback);
    assert_eq!(p.consecutive_errors, 0);
}

#[test]
fn outcomes_are_acted_on() {
    let mut p = policy("function decide(ctx) return nil end");
    let failed = p.apply_outcome(
        Err(mlua::Error::RuntimeError("x".to_string())),
        &mem(Level::Emergency, 1),
    );
    assert_eq!(failed, vec![compress(0.25)]);
    assert_eq!(p.consecutive_errors, 1);
    let one = Entry::Action { name: "resume".to_string(), budget: None };
    let done = p.apply_outcome(Ok(Decision::One(one)), &mem(Level::Emergency, 1));
    assert_eq!(done, vec![EngineCommand::Resume]);
    assert_eq!(p.consecutive_errors, 0);
}

#[test]
fn scripts_that_do_not_load() {
    let load = |source: &str| {
        LuaPolicy::new(source, "policy.lua", AdaptationConfig::default(), &nothing)
    };
    match load("function decide(") {
        Err(LoadError::Evaluation(e)) => assert!(e.to_string().contains("policy.lua"), "{e}"),
        _ => panic!("a syntax error"),
    }
    assert!(matches!(load("error('x')"), Err(LoadError::Evaluation(_))));
    assert!(matches!(load("decide = 5"), Err(LoadError::NoDecide)));
    assert!(matches!(load(""), Err(LoadError::NoDecide)));
    assert!(matches!(
        load("setmetatable(_G, { __index = function() error('no') end })"),
        Err(LoadError::Lookup(_))
    ));
    assert!(judge_decide(Ok(true)).is_ok());
}

#[test]
fn a_script_may_say_what_it_is() {
    let with = policy(
        "POLICY_META = { name = 'p', version = '2' } function decide(ctx) end",
    );
    let meta = with.policy_meta.as_ref().unwrap();
    assert_eq!((meta.name.as_str(), meta.version.as_str()), ("p", "2"));
    assert!(policy("function decide(ctx) end").policy_meta.is_none());
    assert!(policy("POLICY_META = { name = 'p' } function decide(ctx) end").policy_meta.is_none());
    assert!(policy("POLICY_META = 3 function decide(ctx) end").policy_meta.is_none());
}

#[test]
fn a_bad_edit_leaves_the_policy_untouched() {
    let mut p = policy("function decide(ctx) error('x') end");
    for _ in 0..3 {
        commands(&mut p, &mem(Level::Critical, 100));
    }
    assert!(p.permanent_fallback);
    assert!(p.reload_script("decide = nil", "other.lua", &nothing).is_err());
    assert!(p.permanent_fallback);
    assert_eq!(p.script_path(), Some("policy.lua"));
    let reloadable = p.as_reloadable().unwrap();
    let good = "POLICY_META = { name = 'q', version = '1' }
        function decide(ctx) return { type = 'suspend' } end";
    assert!(reloadable.reload_script(good, "other.lua", &nothing).is_ok());
    assert!(!p.permanent_fallback);
    assert_eq!(p.consecutive_errors, 0);
    assert_eq!(p.script_path(), Some("other.lua"));
    assert_eq!(p.policy_meta.as_ref().unwrap().name, "q");
    assert_eq!(commands(&mut p, &mem(Level::Normal, 900)), vec![EngineCommand::Suspend]);
    assert_eq!(p.signal_state.mem_available, 900);
}

#[test]
fn the_mode_follows_the_triggers() {
    let mut p = policy("function decide(ctx) return nil end");
    assert_eq!(p.mode(), OperatingMode::Normal);
    commands(&mut p, &hot(49_000));
    assert_eq!(p.mode(), OperatingMode::Warning);
    commands(&mut p, &mem(Level::Critical, 100));
    assert_eq!(p.mode(), OperatingMode::Critical);
    commands(&mut p, &mem(Level::Normal, 900));
    assert_eq!(p.mode(), OperatingMode::Warning);
    commands(&mut p, &hot(36_000));
    assert_eq!(p.mode(), OperatingMode::Normal);
    let energy = SystemSignal::EnergyConstraint {
        level: Level::Emergency,
        reason: EnergyReason::BatteryLow,
        power_budget_mw: 1,
    };
    commands(&mut p, &energy);
    assert_eq!(p.mode(), OperatingMode::Normal);
}

#[test]
fn only_heartbeats_change_the_policy() {
    let mut p = policy("function decide(ctx) return nil end");
    p.update_engine_state(&EngineMessage::Response(CommandResponse { seq_id: 1, results: vec![] }));
    assert!(p.engine_state.is_none());
    assert_eq!(p.trigger_engine.tbt.warmup_count, 0);
    p.update_engine_state(&heartbeat(12.5));
    assert_eq!(p.engine_state.unwrap().kv_cache_tokens, 32);
    assert_eq!(p.trigger_engine.tbt.warmup_count, 1);
    p.update_engine_state(&heartbeat(f32::NAN));
    assert_eq!(p.trigger_engine.tbt.warmup_count, 1);
    p.cancel_last_observation();
    p.save_model();
}

#[test]
fn a_policy_shows_its_state() {
    let mut p = policy(
        "POLICY_META = { name = 'p', version = '2' } function decide(ctx) return 1 end",
    );
    commands(&mut p, &mem(Level::Normal, 500));
    let mut recorder = StateRecorder::new();
    p.inspect_state(&mut recorder);
    let seen: Vec<String> = recorder
        .records
        .iter()
        .map(|r| match r {
            Record::Number(key, value) => format!("{key}={}", f32::from_bits(value.bits)),
            Record::Count(key, value) => format!("{key}={value}"),
            Record::Text(key, value) => format!("{key}={value}"),
        })
        .collect();
    assert_eq!(
        seen,
        vec![
            "pressure_gpu=0",
            "pressure_cpu=0",
            "pressure_memory=0.5",
            "pressure_thermal=0",
            "pressure_latency=0",
            "dropped_actions=1",
            "policy_name=p",
            "policy_version=2",
        ]
    );
    assert_eq!(get_observation_overrun_count(&mut p), 0);
}

#[test]
fn a_machine_has_files_but_no_system_packages_or_debugging() {
    let lua = new_machine().unwrap();
    for name in ["table", "string", "math", "io"] {
        assert!(lua.globals().get::<mlua::Value>(name).unwrap().is_table(), "{name}");
    }
    for name in ["os", "package", "require", "debug", "coroutine", "utf8"] {
        assert!(lua.globals().get::<mlua::Value>(name).unwrap().is_nil(), "{name}");
    }
}

#[test]
fn a_machine_is_limited_in_memory() {
    let mut p = policy("function decide(ctx) return { s = string.rep('x', 16 * 1024 * 1024) } end");
    assert!(commands(&mut p, &hot(20_000)).is_empty());
    assert_eq!(p.consecutive_errors, 1);
}

#[test]
fn functions_are_registered_before_the_script_runs() {
    let register = |lua: &Lua| lua.globals().set("answer", 42);
    let script = "if answer ~= 42 then error('too early') end
        function decide(ctx) return { type = 'kv.compress', budget = answer / 84 } end";
    let mut p =
        match LuaPolicy::new(script, "p", AdaptationConfig::default(), &register) {
            Ok(p) => p,
            Err(e) => panic!("{e:?}"),
        };
    assert_eq!(commands(&mut p, &hot(20_000)), vec![compress(0.5)]);
    let refuse = |_: &Lua| Err(mlua::Error::RuntimeError("no".to_string()));
    assert!(matches!(
        LuaPolicy::new(script, "p", AdaptationConfig::default(), &refuse),
        Err(LoadError::Registration(_))
    ));
    assert!(matches!(p.reload_script(script, "q", &refuse), Err(LoadError::Registration(_))));
    assert_eq!(p.script_path(), Some("p"));
}

#[test]
fn a_long_array_is_read_entry_by_entry() {
    let mut p = policy(
        "local one = { type = 'suspend' }
        local all = {}
        for i = 1, 131072 do all[i] = one end
        function decide(ctx) return all end",
    );
    let got = commands(&mut p, &hot(20_000));
    assert_eq!(got.len(), 131072);
    assert!(got.iter().all(|c| *c == EngineCommand::Suspend));
    assert_eq!((p.consecutive_errors, p.dropped_actions), (0, 0));
}

#[test]
fn an_array_ends_before_the_first_missing_entry() {
    let mut p = policy(
        "function decide(ctx)
            return { [1] = { type = 'suspend' }, [2] = 5, [4] = { type = 'resume' } }
        end",
    );
    assert_eq!(commands(&mut p, &hot(20_000)), vec![EngineCommand::Suspend]);
    assert_eq!(p.dropped_actions, 1);
}

#[test]
fn the_last_failure_is_kept() {
    let mut p = policy("function decide(ctx) if ctx.trigger.mem_low then error('broken') end end");
    assert!(p.last_failure.is_none());
    commands(&mut p, &mem(Level::Critical, 100));
    assert!(p.last_failure.as_ref().unwrap().to_string().contains("broken"));
    commands(&mut p, &mem(Level::Normal, 900));
    assert!(p.last_failure.is_none());
}

#[test]
fn the_kept_machine_is_the_one_the_script_ran_in() {
    let p = policy("marker = 'here' POLICY_META = { name = 'm', version = '1' } function decide() end");
    assert_eq!(p.lua().globals().get::<String>("marker").unwrap(), "here");
    assert_eq!(p.policy_meta.as_ref().unwrap().name, "m");
}

#[test]
fn the_script_is_asked_once_for_a_signal() {
    let mut p = policy("n = 0 function decide(ctx) n = n + 1 return { type = 'suspend' } end");
    for want in 1..=5i64 {
        commands(&mut p, &hot(20_000));
        assert_eq!(p.lua().globals().get::<i64>("n").unwrap(), want);
    }
}
