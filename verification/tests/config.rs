use argus_manager::config::{
    AdaptationConfig, ComputeMonitorConfig, Config, EnergyMonitorConfig, ExternalMonitorConfig,
    GpuBackend, MemoryMonitorConfig, ThermalMonitorConfig, TriggerConfig,
};
use argus_manager::float::{F32, F64};

fn f64_of(x: F64) -> f64 {
    f64::from_bits(x.bits)
}

fn f32_of(x: F32) -> f32 {
    f32::from_bits(x.bits)
}

#[test]
fn default_config_all_monitors_enabled() {
    let config = Config::default();
    assert_eq!(config.manager.poll_interval_ms, 1000);
    // Optional monitors are None by default
    assert!(config.memory.is_none());
    assert!(config.external.is_none());
}

#[test]
fn defaults_of_the_monitors() {
    let m = MemoryMonitorConfig::default();
    assert!(m.enabled && m.poll_interval_ms.is_none());
    assert_eq!(f64_of(m.warning_pct), 40.0);
    assert_eq!(f64_of(m.critical_pct), 20.0);
    assert_eq!(f64_of(m.emergency_pct), 10.0);
    assert_eq!(f64_of(m.hysteresis_pct), 5.0);
    let t = ThermalMonitorConfig::default();
    assert!(t.enabled && t.poll_interval_ms.is_none() && t.zone_types.is_empty());
    assert_eq!((t.warning_mc, t.critical_mc, t.emergency_mc, t.hysteresis_mc), (60000, 75000, 85000, 5000));
    let c = ComputeMonitorConfig::default();
    assert!(c.enabled && c.gpu_sysfs_path.is_none());
    assert!(matches!(c.gpu_backend, GpuBackend::Auto));
    assert_eq!(f64_of(c.warning_pct), 70.0);
    assert_eq!(f64_of(c.critical_pct), 90.0);
    assert_eq!(f64_of(c.hysteresis_pct), 5.0);
    let e = EnergyMonitorConfig::default();
    assert!(e.enabled && e.ignore_when_charging);
    assert_eq!(f64_of(e.warning_pct), 30.0);
    assert_eq!(f64_of(e.critical_pct), 15.0);
    assert_eq!(f64_of(e.emergency_pct), 5.0);
    assert_eq!(
        (e.warning_power_budget_mw, e.critical_power_budget_mw, e.emergency_power_budget_mw),
        (3000, 1500, 500)
    );
    let x = ExternalMonitorConfig::default();
    assert!(!x.enabled);
    assert_eq!(x.transport, "stdin");
}

#[test]
fn defaults_of_the_policy() {
    let a = AdaptationConfig::default();
    assert_eq!(f32_of(a.temp_safe_c), 35.0);
    assert_eq!(f32_of(a.temp_critical_c), 50.0);
    assert_eq!(f64_of(a.dedup_cooldown_secs), 60.0);
    let t = TriggerConfig::default();
    assert_eq!(f64_of(t.tbt_enter), 0.30);
    assert_eq!(f64_of(t.tbt_exit), 0.10);
    assert_eq!(t.tbt_warmup_tokens, 20);
    assert_eq!(f64_of(t.mem_enter), 0.80);
    assert_eq!(f64_of(t.mem_exit), 0.60);
    assert_eq!(f64_of(t.temp_enter), 0.70);
    assert_eq!(f64_of(t.temp_exit), 0.50);
}

#[test]
fn an_old_path_counts_where_the_backend_is_open() {
    let mut c = ComputeMonitorConfig::default();
    assert!(matches!(c.resolve_backend(), GpuBackend::Auto));
    c.gpu_sysfs_path = Some("/x".to_string());
    assert!(matches!(c.resolve_backend(), GpuBackend::CustomSysfs { path } if path == "/x"));
    c.gpu_backend = GpuBackend::Null;
    assert!(matches!(c.resolve_backend(), GpuBackend::Null));
    c.gpu_backend = GpuBackend::JetsonExplicit {
        freq_path: "/f".to_string(),
        tegrastats_bin: Some("/bin/t".to_string()),
    };
    match c.resolve_backend() {
        GpuBackend::JetsonExplicit { freq_path, tegrastats_bin } => {
            assert_eq!(freq_path, "/f");
            assert_eq!(tegrastats_bin, Some("/bin/t".to_string()));
        }
        _ => panic!("another backend"),
    }
}
