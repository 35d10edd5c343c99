use argus_manager::float::F64;
use argus_manager::lua::fallback::fallback_decide;
use argus_manager::signal::{ComputeReason, EnergyReason, Level, RecommendedBackend, SystemSignal};
use argus_manager::wire::EngineCommand;

fn mem(level: Level) -> SystemSignal {
    SystemSignal::MemoryPressure {
        level,
        available_bytes: 1,
        total_bytes: 100,
        reclaim_target_bytes: 0,
    }
}

fn budget(s: SystemSignal) -> Option<f32> {
    match fallback_decide(&s).first() {
        Some(EngineCommand::KvCompress { budget }) => Some(f32::from_bits(budget.bits)),
        _ => None,
    }
}

#[test]
fn memory_pressure_tightens_the_budget_monotonically() {
    assert_eq!(budget(mem(Level::Normal)), None, "Normal releases instead");
    let w = budget(mem(Level::Warning)).unwrap();
    let c = budget(mem(Level::Critical)).unwrap();
    let e = budget(mem(Level::Emergency)).unwrap();
    assert!(w > c && c > e, "{w} > {c} > {e}");
    assert!(e > 0.0, "budget stays a usable fraction");
}

#[test]
fn normal_memory_releases() {
    assert!(matches!(fallback_decide(&mem(Level::Normal))[..], [EngineCommand::RestoreDefaults]));
}

/// The other axes have no KV-shaped answer, so the fallback says nothing rather than
/// compressing the cache because the SoC is warm.
#[test]
fn non_memory_axes_emit_nothing() {
    let thermal = SystemSignal::ThermalAlert {
        level: Level::Emergency,
        temperature_mc: 90_000,
        throttling_active: true,
        throttle_ratio: F64 { bits: 0.5f64.to_bits() },
    };
    assert!(fallback_decide(&thermal).is_empty());
}

#[test]
fn the_budgets_of_the_fallback() {
    assert_eq!(budget(mem(Level::Warning)), Some(0.85));
    assert_eq!(budget(mem(Level::Critical)), Some(0.50));
    assert_eq!(budget(mem(Level::Emergency)), Some(0.25));
    let compute = SystemSignal::ComputeGuidance {
        level: Level::Critical,
        recommended_backend: RecommendedBackend::Any,
        reason: ComputeReason::BothLoaded,
        cpu_usage_pct: F64 { bits: 0 },
        gpu_usage_pct: F64 { bits: 0 },
    };
    let energy = SystemSignal::EnergyConstraint {
        level: Level::Emergency,
        reason: EnergyReason::BatteryCritical,
        power_budget_mw: 500,
    };
    assert!(fallback_decide(&compute).is_empty());
    assert!(fallback_decide(&energy).is_empty());
}
