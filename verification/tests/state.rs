use argus_manager::config::TriggerConfig;
use argus_manager::float::{F32, F64};
use argus_manager::policy::common::state::{
    hysteresis, Pressure6D, SignalState, TbtTracker, TriggerEngine, TriggerState, RELIEF_DIMS,
};

fn d(x: f64) -> F64 {
    F64 { bits: x.to_bits() }
}

fn s(x: f32) -> F32 {
    F32 { bits: x.to_bits() }
}

fn f(x: F32) -> f32 {
    f32::from_bits(x.bits)
}

#[test]
fn pressure_is_computed_from_the_readings() {
    let mut state = SignalState::default();
    state.update_compute(d(20.0), d(130.0));
    state.update_memory(700, 1000);
    state.update_thermal(42_500, true);
    assert!(state.throttling);
    let p = state.pressure_with_thermal(s(35.0), s(50.0), Some(d(0.25)));
    assert_eq!(f(p.cpu), 20.0f32 / 100.0);
    assert_eq!(f(p.gpu), 1.0);
    assert_eq!(f(p.memory), 1.0 - (700u64 as f32 / 1000u64 as f32));
    assert_eq!(f(p.thermal), (42_500 as f32 / 1000.0 - 35.0) / (50.0 - 35.0));
    assert_eq!(f(p.latency), 0.25);
    assert_eq!(f(p.main_app), 0.0);
}

#[test]
fn pressure_without_readings_is_zero() {
    let p = SignalState::default().pressure_with_thermal(s(35.0), s(50.0), None);
    let all: [F32; 6] = p.into();
    assert_eq!(all.len(), RELIEF_DIMS);
    for x in all {
        assert_eq!(f(x), 0.0);
    }
    let zero: [F32; 6] = Pressure6D::default().into();
    for x in zero {
        assert_eq!(x.bits, 0);
    }
}

#[test]
fn pressure_stays_between_zero_and_one() {
    let mut state = SignalState::default();
    state.update_compute(d(-5.0), d(f64::INFINITY));
    state.update_memory(2000, 1000);
    state.update_thermal(i32::MAX, false);
    let p = state.pressure_with_thermal(s(35.0), s(50.0), None);
    assert_eq!(f(p.cpu), 0.0);
    assert_eq!(f(p.gpu), 1.0);
    assert_eq!(f(p.memory), 0.0);
    assert_eq!(f(p.thermal), 1.0);
    // Without a range there is no heat.
    assert_eq!(f(state.pressure_with_thermal(s(50.0), s(50.0), None).thermal), 0.0);
    // Memory is a number whatever was read.
    state.update_memory(u64::MAX, 1);
    assert_eq!(f(state.pressure_with_thermal(s(35.0), s(50.0), None).memory), 0.0);
    state.update_memory(5, 0);
    assert_eq!(f(state.pressure_with_thermal(s(35.0), s(50.0), None).memory), 0.0);
}

#[test]
fn the_axes_keep_their_order() {
    let p = Pressure6D {
        gpu: s(0.1),
        cpu: s(0.2),
        memory: s(0.3),
        thermal: s(0.4),
        latency: s(0.5),
        main_app: s(0.6),
    };
    let all: [F32; 6] = p.into();
    let got: Vec<f32> = all.iter().map(|x| f(*x)).collect();
    assert_eq!(got, vec![0.1, 0.2, 0.3, 0.4, 0.5, 0.6]);
}

#[test]
fn the_average_follows_and_the_baseline_stays() {
    let mut t = TbtTracker::new(2);
    assert!(t.degradation_ratio().is_none());
    t.observe(d(10.0));
    assert_eq!(t.ewma.bits, 10.0f64.to_bits());
    assert!(t.baseline.is_none());
    t.observe(d(18.0));
    let ewma = 0.875 * 10.0 + 0.125 * 18.0;
    assert_eq!(t.ewma.bits, f64::to_bits(ewma));
    assert_eq!(t.baseline.map(|b| b.bits), Some(f64::to_bits(ewma)));
    assert_eq!(t.degradation_ratio().map(|r| r.bits), Some(0.0f64.to_bits()));
    t.observe(d(100.0));
    let next = 0.875 * ewma + 0.125 * 100.0;
    assert_eq!(t.baseline.map(|b| b.bits), Some(f64::to_bits(ewma)));
    assert_eq!(t.degradation_ratio().map(|r| r.bits), Some(f64::to_bits((next - ewma) / ewma)));
    assert_eq!(t.warmup_count, 3);
}

#[test]
fn a_target_of_nothing_is_reached_by_the_first_time() {
    let mut t = TbtTracker::new(0);
    t.observe(d(7.0));
    assert_eq!(t.baseline.map(|b| b.bits), Some(7.0f64.to_bits()));
    let zero = TbtTracker { ewma: d(1.0), baseline: Some(d(0.0)), warmup_count: 1, warmup_target: 1 };
    assert_eq!(zero.degradation_ratio().map(|r| r.bits), Some(0));
}

#[test]
fn between_the_thresholds_a_trigger_stays() {
    for on in [true, false] {
        assert_eq!(hysteresis(on, d(0.7), d(0.8), d(0.6)), on);
        assert_eq!(hysteresis(on, d(0.8), d(0.8), d(0.6)), on);
        assert_eq!(hysteresis(on, d(0.6), d(0.8), d(0.6)), on);
        assert!(hysteresis(on, d(0.81), d(0.8), d(0.6)));
        assert!(!hysteresis(on, d(0.59), d(0.8), d(0.6)));
        assert_eq!(hysteresis(on, d(f64::NAN), d(0.8), d(0.6)), on);
    }
}

#[test]
fn triggers_enter_and_exit() {
    let mut e = TriggerEngine::new(TriggerConfig::default());
    assert_eq!(*e.state(), TriggerState::default());
    e.update_mem(d(0.81));
    e.update_temp(d(0.71));
    assert!(e.state().mem_low && e.state().temp_high && !e.state().tbt_degraded);
    e.update_mem(d(0.7));
    e.update_temp(d(0.6));
    assert!(e.state().mem_low && e.state().temp_high);
    e.update_mem(d(0.5));
    e.update_temp(d(0.4));
    assert!(!e.state().mem_low && !e.state().temp_high);
}

#[test]
fn slow_tokens_set_off_their_trigger() {
    let mut e = TriggerEngine::new(TriggerConfig { tbt_warmup_tokens: 1, ..TriggerConfig::default() });
    for odd in [f64::NAN, f64::INFINITY, 0.0, -1.0, -0.0] {
        e.update_tbt_ms(d(odd));
        assert_eq!(e.tbt.warmup_count, 0);
    }
    e.update_tbt_ms(d(10.0));
    assert_eq!(e.tbt_degradation_ratio().map(|r| r.bits), Some(0));
    for _ in 0..10 {
        e.update_tbt_ms(d(40.0));
    }
    assert!(e.state().tbt_degraded);
    for _ in 0..40 {
        e.update_tbt_ms(d(10.0));
    }
    assert!(!e.state().tbt_degraded);
}

#[test]
fn pressure_follows_the_readings() {
    let base = SignalState { mem_total: 1_000_003, ..SignalState::default() };
    let p = |st: SignalState| st.pressure_with_thermal(s(35.3), s(50.7), None);
    let mut last = p(SignalState { temp_mc: i32::MIN, ..base });
    for temp_mc in [-50_000, 0, 35_299, 35_300, 35_301, 42_000, 42_001, 50_699, 60_000, i32::MAX] {
        let next = p(SignalState { temp_mc, throttling: true, ..base });
        assert!(next.thermal.at_least(last.thermal));
        last = next;
    }
    assert_eq!(f(last.thermal), 1.0);
    let mut last = p(base);
    for mem_available in [1, 2, 333_333, 333_334, 1_000_002, 1_000_003, 2_000_000, u64::MAX] {
        let next = p(SignalState { mem_available, ..base });
        assert!(last.memory.at_least(next.memory));
        last = next;
    }
    assert_eq!(f(last.memory), 0.0);
    // The greatest range is infinite, and still gives a number.
    let wide = base.pressure_with_thermal(s(-f32::MAX), s(f32::MAX), None);
    assert_eq!(f(wide.thermal), 0.0);
    assert_eq!(f(base.pressure_with_thermal(s(50.0), s(35.0), None).thermal), 0.0);
}

#[test]
fn the_baseline_is_the_smoothed_time_of_the_warmup() {
    let mut t = TbtTracker::new(3);
    for x in [8.0, 16.0, 24.0, 1000.0, 2000.0] {
        t.observe(d(x));
    }
    let second = 0.875 * 8.0 + 0.125 * 16.0;
    let third = 0.875 * second + 0.125 * 24.0;
    assert_eq!(t.baseline.map(|b| b.bits), Some(f64::to_bits(third)));
}
