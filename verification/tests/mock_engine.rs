use argus_manager::float::F32;
use argus_manager::mock_engine::{handle_directive, EngineAction, EngineEvent, EngineState_, MockEngine};
use argus_manager::wire::{CommandResult, EngineCommand, EngineDirective, EngineState, ManagerMessage, Phase};

fn s(x: f32) -> F32 {
    F32 { bits: x.to_bits() }
}

fn occupancy(e: &EngineState_) -> f32 {
    f32::from_bits(e.kv_occupancy.bits)
}

fn engine(kv_occupancy: f32, device: &str) -> EngineState_ {
    EngineState_::new(s(kv_occupancy), device.into())
}

fn compress(budget: f32) -> EngineCommand {
    EngineCommand::KvCompress { budget: s(budget) }
}

#[test]
fn apply_kv_evict_clamps_to_minimum() {
    let mut e = engine(0.01, "cpu");
    let cmd = compress(0.5);
    e.apply(&cmd);
    // Should be clamped to 0.01
    assert!(occupancy(&e) >= 0.01);
}

/// A compression below the floor is answered `Partial`: the mock mirrors the real engine, which
/// declines rather than shave off a handful of tokens.
#[test]
fn tiny_compression_is_declined_as_partial() {
    let mut e = engine(0.8, "opencl");
    let before = e.kv_occupancy;
    let result = e.apply(&compress(0.99));
    assert!(matches!(result, CommandResult::Partial { .. }), "got {result:?}");
    assert_eq!(e.kv_occupancy, before, "declined means untouched");
}

#[test]
fn compression_shrinks_the_cache() {
    let mut e = engine(0.8, "opencl");
    assert!(matches!(e.apply(&compress(0.5)), CommandResult::Applied));
    assert!((occupancy(&e) - 0.4).abs() < 1e-6, "{}", occupancy(&e));
}

#[test]
fn apply_suspend_changes_state() {
    let mut e = engine(0.5, "cpu");
    e.apply(&EngineCommand::Suspend);
    assert_eq!(e.state, EngineState::Suspended);

    e.apply(&EngineCommand::Resume);
    assert_eq!(e.state, EngineState::Running);
}

#[test]
fn handle_directive_sends_response_with_matching_seq_id() {
    let directive = EngineDirective { seq_id: 42, commands: vec![compress(0.5)] };
    let mut e = engine(0.9, "opencl");
    let mut count = 0u32;
    let resp = handle_directive(&directive, &mut e, &mut count);
    assert_eq!(resp.seq_id, 42);
    assert_eq!(resp.results.len(), 1);
    assert!(matches!(resp.results[0], CommandResult::Applied));
    assert_eq!(count, 1);
    // kv_occupancy should have dropped: 0.9 * 0.5 = 0.45
    assert!((occupancy(&e) - 0.45).abs() < 1e-5);
}

#[test]
fn handle_directive_increments_count() {
    let directive = EngineDirective { seq_id: 1, commands: vec![] };
    let mut e = engine(0.5, "cpu");
    let mut count = 0u32;
    handle_directive(&directive, &mut e, &mut count);
    handle_directive(&directive, &mut e, &mut count);
    assert_eq!(count, 2);
}

#[test]
fn the_reason_of_a_declined_compression() {
    let mut e = engine(0.5, "cpu");
    match e.apply(&compress(1.0)) {
        CommandResult::Partial { achieved, reason } => {
            assert_eq!(achieved, s(1.0));
            assert_eq!(reason, "compression declined: too little would be reclaimed");
        }
        other => panic!("{other:?}"),
    }
    // At the floor, half of 0.06 is reclaimed or not as the machine's own numbers say.
    let mut e = engine(0.06, "cpu");
    assert!(matches!(e.apply(&compress(0.5)), CommandResult::Applied) == (0.06f32 - 0.06f32 * 0.5 >= 0.03));
}

#[test]
fn commands_are_applied_one_after_another() {
    let directive = EngineDirective {
        seq_id: 3,
        commands: vec![
            EngineCommand::Suspend,
            compress(0.5),
            compress(0.999),
            EngineCommand::RestoreDefaults,
        ],
    };
    let mut e = engine(0.8, "cpu");
    e.skip_ratio = s(0.5);
    e.active_actions = vec!["x".to_string()];
    let mut count = u32::MAX;
    let resp = handle_directive(&directive, &mut e, &mut count);
    assert_eq!(count, 0);
    assert_eq!(resp.results.len(), 4);
    assert!(matches!(resp.results[2], CommandResult::Partial { .. }));
    assert_eq!(occupancy(&e), 0.4);
    assert_eq!(e.state, EngineState::Running);
    assert_eq!(e.skip_ratio, s(0.0));
    assert!(e.active_actions.is_empty());
}

#[test]
fn the_heartbeat_tells_the_state() {
    let mut e = engine(0.5, "cpu");
    let st = e.status();
    assert_eq!((st.kv_cache_bytes, st.kv_cache_budget_bytes, st.kv_cache_tokens), (1024, 4096, 32));
    assert_eq!(st.tbt_ms, s(12.5));
    assert_eq!(st.phase, Phase::Decode);
    assert_eq!(st.state, EngineState::Running);
    e.apply(&EngineCommand::Suspend);
    assert_eq!(e.status().state, EngineState::Suspended);
}

#[test]
fn a_run_of_the_engine() {
    let mut m = MockEngine::new(s(0.5), "opencl".to_string(), 1, 100);
    let ms = 1_000_000u128;
    let turn = |elapsed: u128, since: u128| EngineEvent::Turn {
        elapsed: elapsed * ms,
        since_heartbeat: since * ms,
    };
    assert!(matches!(m.step(turn(50, 50)), EngineAction::Receive));
    assert!(matches!(m.step(EngineEvent::Received(Ok(None))), EngineAction::Rest));
    assert!(matches!(m.step(turn(100, 100)), EngineAction::SendHeartbeat(_)));
    assert_eq!(m.engine.tokens_generated, 1);
    assert!(matches!(m.step(EngineEvent::HeartbeatSent(true)), EngineAction::Receive));
    assert_eq!(m.heartbeats_sent, 1);
    let directive = ManagerMessage::Directive(EngineDirective {
        seq_id: 5,
        commands: vec![EngineCommand::Suspend],
    });
    match m.step(EngineEvent::Received(Ok(Some(directive)))) {
        EngineAction::SendResponse(r) => assert_eq!((r.seq_id, r.results.len()), (5, 1)),
        other => panic!("{other:?}"),
    }
    assert_eq!(m.directives_received, 1);
    assert_eq!(m.engine.state, EngineState::Suspended);
    assert!(matches!(m.step(EngineEvent::ResponseSent(false)), EngineAction::Rest));
    assert!(matches!(m.step(EngineEvent::HeartbeatSent(false)), EngineAction::Stop));
    assert!(matches!(m.step(EngineEvent::Received(Err(()))), EngineAction::Stop));
    assert!(matches!(m.step(turn(1000, 100)), EngineAction::Stop));
    assert_eq!(m.engine.tokens_generated, 1);
}
