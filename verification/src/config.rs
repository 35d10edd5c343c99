//! What the operator can set, and what holds where nothing is set.

use crate::float::{F32, F64};
use vstd::prelude::*;

verus! {

/// The manager's whole configuration. A monitor without a section runs on its defaults.
#[derive(Debug, Clone)]
pub struct Config {
    pub manager: ManagerConfig,
    pub memory: Option<MemoryMonitorConfig>,
    pub thermal: Option<ThermalMonitorConfig>,
    pub compute: Option<ComputeMonitorConfig>,
    pub energy: Option<EnergyMonitorConfig>,
    pub external: Option<ExternalMonitorConfig>,
    /// Settings of the scripted policy.
    pub adaptation: AdaptationConfig,
}

impl Default for Config {
    fn default() -> (r: Self)
        ensures
            r.manager == ManagerConfig::standard(),
            r.memory is None,
            r.thermal is None,
            r.compute is None,
            r.energy is None,
            r.external is None,
            r.adaptation == AdaptationConfig::standard(),
    {
        Config {
            manager: ManagerConfig::default(),
            memory: None,
            thermal: None,
            compute: None,
            energy: None,
            external: None,
            adaptation: AdaptationConfig::default(),
        }
    }
}

#[derive(Debug, Clone, Copy)]
pub struct ManagerConfig {
    /// Default polling interval in milliseconds.
    pub poll_interval_ms: u64,
}

impl ManagerConfig {
    pub open spec fn standard() -> ManagerConfig {
        ManagerConfig { poll_interval_ms: 1000 }
    }
}

impl Default for ManagerConfig {
    fn default() -> (r: Self)
        ensures
            r == ManagerConfig::standard(),
    {
        ManagerConfig { poll_interval_ms: 1000 }
    }
}

/// Memory monitor: thresholds are the available percentage, so a lower one is worse.
#[derive(Debug, Clone, Copy)]
pub struct MemoryMonitorConfig {
    pub enabled: bool,
    pub poll_interval_ms: Option<u64>,
    pub warning_pct: F64,
    pub critical_pct: F64,
    pub emergency_pct: F64,
    pub hysteresis_pct: F64,
}

impl MemoryMonitorConfig {
    /// 40, 20 and 10 percent, with a hysteresis of 5.
    pub open spec fn standard() -> MemoryMonitorConfig {
        MemoryMonitorConfig {
            enabled: true,
            poll_interval_ms: None,
            warning_pct: F64 { bits: 0x4044_0000_0000_0000 },
            critical_pct: F64 { bits: 0x4034_0000_0000_0000 },
            emergency_pct: F64 { bits: 0x4024_0000_0000_0000 },
            hysteresis_pct: F64 { bits: 0x4014_0000_0000_0000 },
        }
    }
}

impl Default for MemoryMonitorConfig {
    fn default() -> (r: Self)
        ensures
            r == MemoryMonitorConfig::standard(),
    {
        MemoryMonitorConfig {
            enabled: true,
            poll_interval_ms: None,
            warning_pct: F64 { bits: 0x4044_0000_0000_0000 },
            critical_pct: F64 { bits: 0x4034_0000_0000_0000 },
            emergency_pct: F64 { bits: 0x4024_0000_0000_0000 },
            hysteresis_pct: F64 { bits: 0x4014_0000_0000_0000 },
        }
    }
}

/// Thermal monitor: thresholds are in millidegrees Celsius, so a higher one is worse.
#[derive(Debug, Clone)]
pub struct ThermalMonitorConfig {
    pub enabled: bool,
    pub poll_interval_ms: Option<u64>,
    pub zone_types: Vec<String>,
    pub warning_mc: i32,
    pub critical_mc: i32,
    pub emergency_mc: i32,
    pub hysteresis_mc: i32,
}

impl ThermalMonitorConfig {
    /// 60, 75 and 85 degrees, with a hysteresis of 5, and all zones.
    pub open spec fn is_standard(self) -> bool {
        &&& self.enabled
        &&& self.poll_interval_ms is None
        &&& self.zone_types@.len() == 0
        &&& self.warning_mc == 60000
        &&& self.critical_mc == 75000
        &&& self.emergency_mc == 85000
        &&& self.hysteresis_mc == 5000
    }
}

impl Default for ThermalMonitorConfig {
    fn default() -> (r: Self)
        ensures
            r.is_standard(),
    {
        ThermalMonitorConfig {
            enabled: true,
            poll_interval_ms: None,
            zone_types: Vec::new(),
            warning_mc: 60000,
            critical_mc: 75000,
            emergency_mc: 85000,
            hysteresis_mc: 5000,
        }
    }
}

/// Compute monitor: there is no emergency level.
#[derive(Debug, Clone)]
pub struct ComputeMonitorConfig {
    pub enabled: bool,
    pub poll_interval_ms: Option<u64>,
    pub warning_pct: F64,
    pub critical_pct: F64,
    pub hysteresis_pct: F64,
    /// Superseded by a backend of [`GpuBackend::CustomSysfs`]; it still counts where the backend
    /// is [`GpuBackend::Auto`].
    pub gpu_sysfs_path: Option<String>,
    /// Where GPU readings come from.
    pub gpu_backend: GpuBackend,
}

impl Default for ComputeMonitorConfig {
    fn default() -> (r: Self)
        ensures
            r.is_standard(),
    {
        ComputeMonitorConfig {
            enabled: true,
            poll_interval_ms: None,
            warning_pct: F64 { bits: 0x4051_8000_0000_0000 },
            critical_pct: F64 { bits: 0x4056_8000_0000_0000 },
            hysteresis_pct: F64 { bits: 0x4014_0000_0000_0000 },
            gpu_sysfs_path: None,
            gpu_backend: GpuBackend::Auto,
        }
    }
}

impl ComputeMonitorConfig {
    /// 70 and 90 percent, with a hysteresis of 5, and any GPU.
    pub open spec fn is_standard(self) -> bool {
        &&& self.enabled
        &&& self.poll_interval_ms is None
        &&& self.warning_pct == (F64 { bits: 0x4051_8000_0000_0000 })
        &&& self.critical_pct == (F64 { bits: 0x4056_8000_0000_0000 })
        &&& self.hysteresis_pct == (F64 { bits: 0x4014_0000_0000_0000 })
        &&& self.gpu_sysfs_path is None
        &&& self.gpu_backend is Auto
    }

    /// The backend to use: a path of the old setting counts where the backend is left open.
    pub fn resolve_backend(&self) -> (r: GpuBackend)
        ensures
            match (self.gpu_backend, self.gpu_sysfs_path) {
                (GpuBackend::Auto, Some(p)) => r == (GpuBackend::CustomSysfs { path: p }),
                _ => r == self.gpu_backend,
            },
    {
        match (&self.gpu_backend, &self.gpu_sysfs_path) {
            (GpuBackend::Auto, Some(p)) => GpuBackend::CustomSysfs { path: p.clone() },
            _ => self.gpu_backend.duplicate(),
        }
    }
}

/// Where GPU readings come from.
#[derive(Debug, Clone)]
pub enum GpuBackend {
    /// What is found under `/sys`: a Jetson first, then Adreno or Mali, else nothing.
    Auto,
    /// No GPU, or one that is not supported.
    Null,
    /// The first of the Adreno and Mali files that can be read.
    Sysfs,
    /// One file for the utilization.
    CustomSysfs { path: String },
    /// The frequency file that is found, and `tegrastats`.
    Jetson,
    /// A given frequency file, and a given `tegrastats`.
    JetsonExplicit { freq_path: String, tegrastats_bin: Option<String> },
}

impl GpuBackend {
    /// A copy of a backend.
    pub fn duplicate(&self) -> (r: GpuBackend)
        ensures
            r == *self,
    {
        match self {
            GpuBackend::Auto => GpuBackend::Auto,
            GpuBackend::Null => GpuBackend::Null,
            GpuBackend::Sysfs => GpuBackend::Sysfs,
            GpuBackend::CustomSysfs { path } => GpuBackend::CustomSysfs { path: path.clone() },
            GpuBackend::Jetson => GpuBackend::Jetson,
            GpuBackend::JetsonExplicit { freq_path, tegrastats_bin } => {
                GpuBackend::JetsonExplicit {
                    freq_path: freq_path.clone(),
                    tegrastats_bin: match tegrastats_bin {
                        Some(b) => Some(b.clone()),
                        None => None,
                    },
                }
            },
        }
    }
}

impl Default for GpuBackend {
    fn default() -> (r: Self)
        ensures
            r is Auto,
    {
        GpuBackend::Auto
    }
}

/// Energy monitor: thresholds are the battery percentage, so a lower one is worse.
#[derive(Debug, Clone, Copy)]
pub struct EnergyMonitorConfig {
    pub enabled: bool,
    pub poll_interval_ms: Option<u64>,
    pub warning_pct: F64,
    pub critical_pct: F64,
    pub emergency_pct: F64,
    pub warning_power_budget_mw: u32,
    pub critical_power_budget_mw: u32,
    pub emergency_power_budget_mw: u32,
    pub ignore_when_charging: bool,
}

impl EnergyMonitorConfig {
    /// 30, 15 and 5 percent.
    pub open spec fn standard() -> EnergyMonitorConfig {
        EnergyMonitorConfig {
            enabled: true,
            poll_interval_ms: None,
            warning_pct: F64 { bits: 0x403e_0000_0000_0000 },
            critical_pct: F64 { bits: 0x402e_0000_0000_0000 },
            emergency_pct: F64 { bits: 0x4014_0000_0000_0000 },
            warning_power_budget_mw: 3000,
            critical_power_budget_mw: 1500,
            emergency_power_budget_mw: 500,
            ignore_when_charging: true,
        }
    }
}

impl Default for EnergyMonitorConfig {
    fn default() -> (r: Self)
        ensures
            r == EnergyMonitorConfig::standard(),
    {
        EnergyMonitorConfig {
            enabled: true,
            poll_interval_ms: None,
            warning_pct: F64 { bits: 0x403e_0000_0000_0000 },
            critical_pct: F64 { bits: 0x402e_0000_0000_0000 },
            emergency_pct: F64 { bits: 0x4014_0000_0000_0000 },
            warning_power_budget_mw: 3000,
            critical_power_budget_mw: 1500,
            emergency_power_budget_mw: 500,
            ignore_when_charging: true,
        }
    }
}

/// External monitor: signals that are injected for research and testing.
#[derive(Debug, Clone)]
pub struct ExternalMonitorConfig {
    pub enabled: bool,
    /// `stdin` or `unix:<socket_path>`.
    pub transport: String,
}

impl Default for ExternalMonitorConfig {
    fn default() -> (r: Self)
        ensures
            !r.enabled,
            r.transport@ == "stdin"@,
    {
        ExternalMonitorConfig { enabled: false, transport: "stdin".to_owned() }
    }
}

/// Settings of the scripted policy.
#[derive(Debug, Clone, Copy)]
pub struct AdaptationConfig {
    /// The temperature, in degrees Celsius, at which thermal pressure starts.
    pub temp_safe_c: F32,
    /// The temperature at which thermal pressure is full.
    pub temp_critical_c: F32,
    pub trigger: TriggerConfig,
    /// After this many seconds an unchanged directive is sent again.
    pub dedup_cooldown_secs: F64,
}

impl AdaptationConfig {
    /// 35 and 50 degrees, and a cooldown of 60 seconds.
    pub open spec fn standard() -> AdaptationConfig {
        AdaptationConfig {
            temp_safe_c: F32 { bits: 0x420c_0000 },
            temp_critical_c: F32 { bits: 0x4248_0000 },
            trigger: TriggerConfig::standard(),
            dedup_cooldown_secs: F64 { bits: 0x404e_0000_0000_0000 },
        }
    }
}

impl Default for AdaptationConfig {
    fn default() -> (r: Self)
        ensures
            r == AdaptationConfig::standard(),
    {
        AdaptationConfig {
            temp_safe_c: default_temp_safe(),
            temp_critical_c: default_temp_critical(),
            trigger: TriggerConfig::default(),
            dedup_cooldown_secs: default_dedup_cooldown_secs(),
        }
    }
}

/// Where each trigger enters and exits.
#[derive(Debug, Clone, Copy)]
pub struct TriggerConfig {
    pub tbt_enter: F64,
    pub tbt_exit: F64,
    pub tbt_warmup_tokens: u32,
    pub mem_enter: F64,
    pub mem_exit: F64,
    pub temp_enter: F64,
    pub temp_exit: F64,
}

impl TriggerConfig {
    /// Token times at 0.30 and 0.10 after 20 tokens, memory at 0.80 and 0.60, temperature at
    /// 0.70 and 0.50.
    pub open spec fn standard() -> TriggerConfig {
        TriggerConfig {
            tbt_enter: F64 { bits: 0x3fd3_3333_3333_3333 },
            tbt_exit: F64 { bits: 0x3fb9_9999_9999_999a },
            tbt_warmup_tokens: 20,
            mem_enter: F64 { bits: 0x3fe9_9999_9999_999a },
            mem_exit: F64 { bits: 0x3fe3_3333_3333_3333 },
            temp_enter: F64 { bits: 0x3fe6_6666_6666_6666 },
            temp_exit: F64 { bits: 0x3fe0_0000_0000_0000 },
        }
    }
}

impl Default for TriggerConfig {
    fn default() -> (r: Self)
        ensures
            r == TriggerConfig::standard(),
    {
        TriggerConfig {
            tbt_enter: default_tbt_enter(),
            tbt_exit: default_tbt_exit(),
            tbt_warmup_tokens: default_tbt_warmup(),
            mem_enter: default_mem_enter(),
            mem_exit: default_mem_exit(),
            temp_enter: default_temp_enter(),
            temp_exit: default_temp_exit(),
        }
    }
}

/// 35 degrees.
pub fn default_temp_safe() -> (r: F32)
    ensures
        r == AdaptationConfig::standard().temp_safe_c,
{
    F32 { bits: 0x420c_0000 }
}

/// 50 degrees.
pub fn default_temp_critical() -> (r: F32)
    ensures
        r == AdaptationConfig::standard().temp_critical_c,
{
    F32 { bits: 0x4248_0000 }
}

/// 0.30.
pub fn default_tbt_enter() -> (r: F64)
    ensures
        r == TriggerConfig::standard().tbt_enter,
{
    F64 { bits: 0x3fd3_3333_3333_3333 }
}

/// 0.10.
pub fn default_tbt_exit() -> (r: F64)
    ensures
        r == TriggerConfig::standard().tbt_exit,
{
    F64 { bits: 0x3fb9_9999_9999_999a }
}

pub fn default_tbt_warmup() -> (r: u32)
    ensures
        r == 20,
{
    20
}

/// 0.80.
pub fn default_mem_enter() -> (r: F64)
    ensures
        r == TriggerConfig::standard().mem_enter,
{
    F64 { bits: 0x3fe9_9999_9999_999a }
}

/// 0.60.
pub fn default_mem_exit() -> (r: F64)
    ensures
        r == TriggerConfig::standard().mem_exit,
{
    F64 { bits: 0x3fe3_3333_3333_3333 }
}

/// 0.70.
pub fn default_temp_enter() -> (r: F64)
    ensures
        r == TriggerConfig::standard().temp_enter,
{
    F64 { bits: 0x3fe6_6666_6666_6666 }
}

/// 0.50.
pub fn default_temp_exit() -> (r: F64)
    ensures
        r == TriggerConfig::standard().temp_exit,
{
    F64 { bits: 0x3fe0_0000_0000_0000 }
}

/// 60 seconds.
pub fn default_dedup_cooldown_secs() -> (r: F64)
    ensures
        r == AdaptationConfig::standard().dedup_cooldown_secs,
{
    F64 { bits: 0x404e_0000_0000_0000 }
}

} // verus!
