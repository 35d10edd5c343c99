use argus_manager::emitter::dbus::DbusArg;
use argus_manager::float::{F32, F64};
use argus_manager::mock_engine::{handle_directive, EngineState_};
use argus_manager::mock_manager::{
    await_answer, build_command, check_response, choose_task, emit_scenario_signal, emit_single,
    note_heartbeat, select_response, validate_response, AnswerStep, CommandError, CommandParams,
    DbusScenarioSignal, PlayAction, Playing, ProtocolRun, RunAction, ScenarioCommand, Selected,
    SignalParams, Task, RESPONSE_TIMEOUT_MS,
};
use argus_manager::wire::{
    CommandResponse, CommandResult, EngineCommand, EngineMessage, EngineState, EngineStatus, Phase,
};

fn s(x: f32) -> F32 {
    F32 { bits: x.to_bits() }
}

fn params(name: &str) -> CommandParams<'_> {
    CommandParams { name, keep_ratio: None }
}

fn beat() -> EngineMessage {
    EngineMessage::Heartbeat(EngineStatus {
        kv_cache_bytes: 1024,
        kv_cache_budget_bytes: 4096,
        kv_cache_tokens: 32,
        tbt_ms: s(12.5),
        phase: Phase::Decode,
        state: EngineState::Running,
    })
}

fn response(seq_id: u64, n: usize) -> CommandResponse {
    CommandResponse { seq_id, results: vec![CommandResult::Applied; n] }
}

/// The four commands the contract carries, and a refusal for anything else.
#[test]
fn build_command_covers_the_contract() {
    let cmd =
        build_command(&CommandParams { keep_ratio: Some(s(0.7)), ..params("KvCompress") }).unwrap();
    assert!(
        matches!(cmd, EngineCommand::KvCompress { budget } if (f32::from_bits(budget.bits) - 0.7).abs() < f32::EPSILON)
    );

    for (name, want) in [
        ("RestoreDefaults", EngineCommand::RestoreDefaults),
        ("Suspend", EngineCommand::Suspend),
        ("Resume", EngineCommand::Resume),
    ] {
        assert_eq!(build_command(&params(name)).unwrap(), want);
    }

    assert!(
        build_command(&params("KvEvictH2o")).is_err(),
        "a technique name is not a command any more"
    );
}

#[test]
fn refusals_say_why() {
    assert!(matches!(build_command(&params("KvCompress")), Err(CommandError::MissingKeepRatio)));
    match build_command(&params("suspend")) {
        Err(CommandError::Unknown(name)) => assert_eq!(name, "suspend"),
        _ => panic!("a name is case sensitive"),
    }
}

#[test]
fn validate_response_ok() {
    assert!(validate_response(1, &response(1, 1), 1));
}

#[test]
fn validate_response_seq_id_mismatch() {
    assert!(!validate_response(1, &response(2, 1), 1));
}

#[test]
fn validate_response_results_count_mismatch() {
    let resp = CommandResponse {
        seq_id: 1,
        results: vec![CommandResult::Applied, CommandResult::Applied],
    };
    assert!(!validate_response(1, &resp, 1));
    let check = check_response(1, &resp, 1);
    assert!(check.seq_id_matches && !check.count_matches);
}

/// Takes messages in turn until an answer is there or the time is over.
fn answer_among(messages: Vec<Option<EngineMessage>>) -> (Option<CommandResponse>, usize) {
    let mut skipped = 0;
    for m in messages {
        match await_answer(false, m) {
            AnswerStep::Answered(r) => return (Some(r), skipped),
            AnswerStep::Skipped(_) => skipped += 1,
            AnswerStep::Rest => {}
            AnswerStep::GiveUp => return (None, skipped),
        }
    }
    match await_answer(true, Some(EngineMessage::Response(response(9, 9)))) {
        AnswerStep::GiveUp => (None, skipped),
        other => panic!("{other:?}"),
    }
}

#[test]
fn recv_response_skip_heartbeats_skips_heartbeats() {
    let (resp, skipped) = answer_among(vec![
        Some(beat()),
        Some(beat()),
        Some(EngineMessage::Response(response(1, 1))),
    ]);
    let resp = resp.expect("should receive Response");
    assert_eq!(resp.seq_id, 1);
    assert_eq!(resp.results.len(), 1);
    assert_eq!(skipped, 2);
}

#[test]
fn recv_response_skip_heartbeats_returns_none_on_timeout() {
    assert_eq!(answer_among(vec![Some(beat()), None]), (None, 1));
}

#[test]
fn recv_response_skip_heartbeats_immediate_response() {
    let (resp, skipped) = answer_among(vec![Some(EngineMessage::Response(response(42, 2)))]);
    let resp = resp.expect("should receive Response");
    assert_eq!(resp.seq_id, 42);
    assert_eq!(resp.results.len(), 2);
    assert_eq!(skipped, 0);
}

#[test]
fn responses_are_selected() {
    assert!(matches!(select_response(beat()), Selected::Skip(EngineMessage::Heartbeat(_))));
    assert!(matches!(
        select_response(EngineMessage::Response(response(3, 0))),
        Selected::Match(r) if r.seq_id == 3
    ));
    let mut count = 0;
    assert!(note_heartbeat(&mut count, &beat()));
    assert!(!note_heartbeat(&mut count, &EngineMessage::Response(response(1, 1))));
    assert_eq!(count, 1);
}

#[test]
fn there_must_be_something_to_play() {
    assert_eq!(choose_task(true, true, false), Task::Scenario);
    assert_eq!(choose_task(false, true, false), Task::Single);
    assert_eq!(choose_task(false, false, false), Task::Missing);
    assert_eq!(choose_task(false, false, true), Task::Nothing);
}

#[test]
fn a_scenario_is_played_against_an_engine() {
    let entry = |delay_ms: u64, command: &str, keep_ratio: Option<f32>| ScenarioCommand {
        delay_ms,
        command: command.to_string(),
        keep_ratio: keep_ratio.map(s),
    };
    let mut play = Playing::scenario(vec![
        entry(1000, "KvCompress", Some(0.5)),
        entry(0, "Suspend", None),
        entry(5, "RequestQcf", None),
    ]);
    let mut engine = EngineState_::new(s(0.8), "cpu".to_string());
    let mut count = 0;
    assert!(matches!(play.proceed(), PlayAction::Wait(1000)));
    match play.proceed() {
        PlayAction::Send(d) => {
            assert_eq!(d.seq_id, 1);
            assert_eq!(d.commands, vec![EngineCommand::KvCompress { budget: s(0.5) }]);
            let r = handle_directive(&d, &mut engine, &mut count);
            let check = play.answered(&Some(r)).unwrap();
            assert!(check.seq_id_matches && check.count_matches);
        }
        other => panic!("{other:?}"),
    }
    match play.proceed() {
        PlayAction::Send(d) => assert_eq!((d.seq_id, d.commands.len()), (2, 1)),
        other => panic!("{other:?}"),
    }
    assert_eq!(play.answered(&None), None);
    assert!(matches!(play.proceed(), PlayAction::Wait(5)));
    assert!(matches!(play.proceed(), PlayAction::Fail(CommandError::Unknown(n)) if n == "RequestQcf"));
    assert_eq!(play.seq_id, 2);
}

#[test]
fn one_command_is_played_at_once() {
    let mut play = Playing::single("Resume".to_string(), None);
    match play.proceed() {
        PlayAction::Send(d) => {
            assert_eq!(d.seq_id, 1);
            assert_eq!(d.commands, vec![EngineCommand::Resume]);
        }
        other => panic!("{other:?}"),
    }
    let check = play.answered(&Some(response(7, 1))).unwrap();
    assert!(!check.seq_id_matches && check.count_matches);
    assert!(matches!(play.proceed(), PlayAction::Finish));
    assert!(matches!(play.proceed(), PlayAction::Finish));
    assert_eq!(RESPONSE_TIMEOUT_MS, 5000);
}

fn no_params() -> SignalParams {
    SignalParams {
        available_bytes: None,
        reclaim_target_bytes: None,
        recommended_backend: None,
        reason: None,
        cpu_usage_pct: None,
        gpu_usage_pct: None,
        temperature_mc: None,
        throttling_active: None,
        throttle_ratio: None,
        power_budget_mw: None,
    }
}

fn shown(args: &[DbusArg]) -> String {
    let all: Vec<String> = args
        .iter()
        .map(|a| match a {
            DbusArg::Text(t) => t.clone(),
            DbusArg::Unsigned(n) => format!("{n}u64"),
            DbusArg::Word(n) => format!("{n}u32"),
            DbusArg::Signed(n) => format!("{n}i32"),
            DbusArg::Flag(b) => format!("{b}"),
            DbusArg::Number(x) => format!("{:?}", f64::from_bits(x.bits)),
        })
        .collect();
    all.join(", ")
}

#[test]
fn signals_have_defaults() {
    let single = |name: &str| shown(&emit_single(name, &None, &no_params()).unwrap().args);
    assert_eq!(single("MemoryPressure"), "normal, 0u64, 0u64");
    assert_eq!(single("ComputeGuidance"), "normal, any, balanced, 0.0, 0.0");
    assert_eq!(single("ThermalAlert"), "normal, 25000i32, false, 1.0");
    assert_eq!(single("EnergyConstraint"), "normal, none, 0u32");
    let unknown = emit_single("Nothing", &None, &no_params());
    assert_eq!(unknown.unwrap_err().name, "Nothing");
}

#[test]
fn signals_carry_what_is_given() {
    let params = SignalParams {
        available_bytes: Some(1),
        reclaim_target_bytes: Some(2),
        recommended_backend: Some("gpu".to_string()),
        reason: Some("charging".to_string()),
        cpu_usage_pct: Some(F64 { bits: 1.5f64.to_bits() }),
        gpu_usage_pct: Some(F64 { bits: 2.5f64.to_bits() }),
        temperature_mc: Some(-3),
        throttling_active: Some(true),
        throttle_ratio: Some(F64 { bits: 0.5f64.to_bits() }),
        power_budget_mw: Some(4),
    };
    let entry = |signal: &str| {
        emit_scenario_signal(&DbusScenarioSignal {
            delay_ms: 0,
            signal: signal.to_string(),
            level: "critical".to_string(),
            params: params.clone(),
        })
    };
    let m = entry("MemoryPressure").unwrap();
    assert_eq!(m.member, "MemoryPressure");
    assert_eq!(shown(&m.args), "critical, 1u64, 2u64");
    assert_eq!(shown(&entry("ComputeGuidance").unwrap().args), "critical, gpu, charging, 1.5, 2.5");
    assert_eq!(shown(&entry("ThermalAlert").unwrap().args), "critical, -3i32, true, 0.5");
    assert_eq!(shown(&entry("EnergyConstraint").unwrap().args), "critical, charging, 4u32");
    assert_eq!(entry("memory").unwrap_err().name, "memory");
}

#[test]
fn a_run_waits_plays_and_watches() {
    let mut run = ProtocolRun::new(7, Task::Single);
    assert_eq!(run.next(), RunAction::Watch(7));
    assert_eq!(run.next(), RunAction::Play(Task::Single));
    assert_eq!(run.next(), RunAction::Watch(2));
    assert_eq!(run.next(), RunAction::Finish);
    assert_eq!(run.next(), RunAction::Finish);
    let mut empty = ProtocolRun::new(0, Task::Missing);
    assert_eq!(empty.next(), RunAction::Watch(0));
    assert_eq!(empty.next(), RunAction::Refuse);
    assert_eq!(empty.next(), RunAction::Finish);
}
