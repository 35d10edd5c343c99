use argus_manager::emitter::dbus::{
    backend_to_str, compute_reason_to_str, energy_reason_to_str, initial_messages, level_to_str,
    signal_message, DbusArg, DbusMessage, MANAGER_IFACE, MANAGER_NAME, MANAGER_PATH,
};
use argus_manager::float::F64;
use argus_manager::signal::{ComputeReason, EnergyReason, Level, RecommendedBackend, SystemSignal};

fn number(x: f64) -> F64 {
    F64 { bits: x.to_bits() }
}

/// A message in one line.
fn shown(m: &DbusMessage) -> String {
    let args: Vec<String> = m
        .args
        .iter()
        .map(|a| match a {
            DbusArg::Text(s) => s.clone(),
            DbusArg::Unsigned(n) => format!("{n}u64"),
            DbusArg::Word(n) => format!("{n}u32"),
            DbusArg::Signed(n) => format!("{n}i32"),
            DbusArg::Flag(b) => format!("{b}"),
            DbusArg::Number(x) => format!("{:?}", f64::from_bits(x.bits)),
        })
        .collect();
    format!("{}({})", m.member, args.join(", "))
}

#[test]
fn names_of_the_bus_are_read_back() {
    for v in [Level::Normal, Level::Warning, Level::Critical, Level::Emergency] {
        assert_eq!(Level::from_dbus_str(level_to_str(v)), Some(v));
    }
    for v in [RecommendedBackend::Cpu, RecommendedBackend::Gpu, RecommendedBackend::Any] {
        assert_eq!(RecommendedBackend::from_dbus_str(backend_to_str(v)), Some(v));
    }
    for v in [
        ComputeReason::CpuBottleneck,
        ComputeReason::GpuBottleneck,
        ComputeReason::CpuAvailable,
        ComputeReason::GpuAvailable,
        ComputeReason::BothLoaded,
        ComputeReason::Balanced,
    ] {
        assert_eq!(ComputeReason::from_dbus_str(compute_reason_to_str(v)), Some(v));
    }
    for v in [
        EnergyReason::BatteryLow,
        EnergyReason::BatteryCritical,
        EnergyReason::PowerLimit,
        EnergyReason::ThermalPower,
        EnergyReason::Charging,
        EnergyReason::NoReason,
    ] {
        assert_eq!(EnergyReason::from_dbus_str(energy_reason_to_str(v)), Some(v));
    }
    assert_eq!(level_to_str(Level::Emergency), "emergency");
    assert_eq!(energy_reason_to_str(EnergyReason::NoReason), "none");
}

#[test]
fn other_names_are_not_of_the_bus() {
    assert_eq!(Level::from_dbus_str("Normal"), None);
    assert_eq!(Level::from_dbus_str(""), None);
    assert_eq!(RecommendedBackend::from_dbus_str("tpu"), None);
    assert_eq!(ComputeReason::from_dbus_str("cpu"), None);
    assert_eq!(EnergyReason::from_dbus_str("None"), None);
}

#[test]
fn levels_are_ordered_by_severity() {
    assert!(Level::Normal < Level::Warning);
    assert!(Level::Warning < Level::Critical);
    assert!(Level::Critical < Level::Emergency);
}

#[test]
fn signals_become_messages() {
    let memory = SystemSignal::MemoryPressure {
        level: Level::Critical,
        available_bytes: 1,
        total_bytes: 100,
        reclaim_target_bytes: 7,
    };
    let compute = SystemSignal::ComputeGuidance {
        level: Level::Warning,
        recommended_backend: RecommendedBackend::Gpu,
        reason: ComputeReason::CpuBottleneck,
        cpu_usage_pct: number(91.5),
        gpu_usage_pct: number(12.0),
    };
    let thermal = SystemSignal::ThermalAlert {
        level: Level::Emergency,
        temperature_mc: -1000,
        throttling_active: true,
        throttle_ratio: number(0.5),
    };
    let energy = SystemSignal::EnergyConstraint {
        level: Level::Normal,
        reason: EnergyReason::NoReason,
        power_budget_mw: 3000,
    };
    assert_eq!(shown(&signal_message(&memory)), "MemoryPressure(critical, 1u64, 100u64, 7u64)");
    assert_eq!(
        shown(&signal_message(&compute)),
        "ComputeGuidance(warning, gpu, cpu_bottleneck, 91.5, 12.0)"
    );
    assert_eq!(shown(&signal_message(&thermal)), "ThermalAlert(emergency, -1000i32, true, 0.5)");
    assert_eq!(shown(&signal_message(&energy)), "EnergyConstraint(normal, none, 3000u32)");
    assert_eq!(energy.level(), Level::Normal);
    assert_eq!(thermal.level(), Level::Emergency);
    let all = initial_messages(&vec![thermal, memory]);
    assert_eq!(all.len(), 2);
    assert_eq!(all[0].member, "ThermalAlert");
    assert_eq!(all[1].member, "MemoryPressure");
    assert_eq!(MANAGER_NAME, "org.llm.Manager1");
    assert_eq!(MANAGER_PATH, "/org/llm/Manager1");
    assert_eq!(MANAGER_IFACE, "org.llm.Manager1");
}
