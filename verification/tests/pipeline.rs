use argus_manager::float::{F32, F64};
use argus_manager::pipeline::{
    next_seq_id, DirectiveDeduplicator, OverrunCollector, PolicyVisitor, SeqCounter,
};
use argus_manager::wire::{EngineCommand, EngineDirective};

fn secs(x: f64) -> F64 {
    F64 { bits: x.to_bits() }
}

fn directive(commands: Vec<EngineCommand>) -> EngineDirective {
    EngineDirective { seq_id: 0, commands }
}

/// A compression at a given budget. The dedup unit is the whole command vector, so
/// two budgets that differ are two different directives.
fn compress(budget: f32) -> EngineCommand {
    EngineCommand::KvCompress { budget: F32 { bits: budget.to_bits() } }
}

/// A second, distinct command.
fn other() -> EngineCommand {
    EngineCommand::RestoreDefaults
}

#[test]
fn first_directive_always_passes() {
    let mut dedup = DirectiveDeduplicator::new();
    let d = directive(vec![compress(0.8)]);
    assert!(dedup.process(d, secs(0.0)).is_some());
}

#[test]
fn identical_commands_suppressed() {
    let mut dedup = DirectiveDeduplicator::new();
    assert!(dedup.process(directive(vec![compress(0.8)]), secs(0.0)).is_some());
    assert!(dedup.process(directive(vec![compress(0.8)]), secs(1.0)).is_none());
    assert!(dedup.process(directive(vec![compress(0.8)]), secs(2.0)).is_none());
}

#[test]
fn same_type_different_param_passes() {
    let mut dedup = DirectiveDeduplicator::new();
    assert!(dedup.process(directive(vec![compress(0.8)]), secs(0.0)).is_some());
    assert!(dedup.process(directive(vec![compress(0.5)]), secs(1.0)).is_some());
}

#[test]
fn cycle_a_b_a_emits_second_a() {
    let mut dedup = DirectiveDeduplicator::new();
    assert!(dedup.process(directive(vec![compress(0.8)]), secs(0.0)).is_some());
    assert!(dedup.process(directive(vec![other()]), secs(1.0)).is_some());
    assert!(dedup.process(directive(vec![compress(0.8)]), secs(2.0)).is_some());
}

#[test]
fn multi_command_identical_suppressed() {
    let mut dedup = DirectiveDeduplicator::new();
    let cmds = vec![compress(0.8), other()];
    assert!(dedup.process(directive(cmds.clone()), secs(0.0)).is_some());
    assert!(dedup.process(directive(cmds), secs(1.0)).is_none());
}

#[test]
fn after_suppression_different_command_passes() {
    let mut dedup = DirectiveDeduplicator::new();
    assert!(dedup.process(directive(vec![compress(0.8)]), secs(0.0)).is_some());
    assert!(dedup.process(directive(vec![compress(0.8)]), secs(1.0)).is_none());
    assert!(dedup.process(directive(vec![other()]), secs(2.0)).is_some());
}

#[test]
fn suppressed_does_not_update_last() {
    let mut dedup = DirectiveDeduplicator::new();
    assert!(dedup.process(directive(vec![compress(0.8)]), secs(0.0)).is_some());
    assert!(dedup.process(directive(vec![compress(0.8)]), secs(1.0)).is_none());
    assert!(dedup.process(directive(vec![other()]), secs(2.0)).is_some());
}

#[test]
fn cooldown_allows_same_after_timeout() {
    let mut dedup = DirectiveDeduplicator::with_cooldown(secs(60.0));
    assert!(dedup.process(directive(vec![compress(0.8)]), secs(0.0)).is_some());
    assert!(dedup.process(directive(vec![compress(0.8)]), secs(30.0)).is_none());
    assert!(dedup.process(directive(vec![compress(0.8)]), secs(59.0)).is_none());
    assert!(dedup.process(directive(vec![compress(0.8)]), secs(60.0)).is_some());
    assert!(dedup.process(directive(vec![compress(0.8)]), secs(100.0)).is_none());
    assert!(dedup.process(directive(vec![compress(0.8)]), secs(120.0)).is_some());
}

#[test]
fn cooldown_reset_on_change() {
    let mut dedup = DirectiveDeduplicator::with_cooldown(secs(60.0));
    assert!(dedup.process(directive(vec![compress(0.8)]), secs(0.0)).is_some());
    assert!(dedup.process(directive(vec![other()]), secs(50.0)).is_some());
    assert!(dedup.process(directive(vec![other()]), secs(90.0)).is_none());
    assert!(dedup.process(directive(vec![other()]), secs(110.0)).is_some());
}

#[test]
fn what_passes_is_handed_back_as_it_is() {
    let mut dedup = DirectiveDeduplicator::default();
    let d = EngineDirective { seq_id: 9, commands: vec![compress(0.8), other()] };
    assert_eq!(dedup.process(d.clone(), secs(0.0)), Some(d));
    // Another order is another directive.
    let swapped = EngineDirective { seq_id: 10, commands: vec![other(), compress(0.8)] };
    assert_eq!(dedup.process(swapped.clone(), secs(0.0)), Some(swapped));
    // A budget that is not a number equals nothing, not even itself.
    let odd = directive(vec![compress(f32::NAN)]);
    assert!(dedup.process(odd.clone(), secs(1.0)).is_some());
    assert!(dedup.process(odd, secs(2.0)).is_some());
}

#[test]
fn numbers_start_at_one_and_go_up() {
    let mut ids = SeqCounter::new();
    assert_eq!(next_seq_id(&mut ids), 1);
    assert_eq!(next_seq_id(&mut ids), 2);
    assert_eq!(next_seq_id(&mut ids), 3);
    let mut last = SeqCounter { next: u64::MAX };
    assert_eq!(next_seq_id(&mut last), u64::MAX);
    assert_eq!(next_seq_id(&mut last), 0);
}

#[test]
fn only_one_counter_is_collected() {
    let mut c = OverrunCollector { count: 0 };
    c.record_u64("dropped_actions", 5);
    c.record_f32("observation_overrun_count", F32 { bits: 1 });
    c.record_string("observation_overrun_count", "7");
    assert_eq!(c.count, 0);
    c.record_u64("observation_overrun_count", 5);
    assert_eq!(c.count, 5);
}
