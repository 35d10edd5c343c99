//! Signals as D-Bus messages.
//!
//! A message has a member and arguments; the object path and the interface are always the
//! manager's. The caller sends it.

use crate::float::F64;
use crate::signal::{ComputeReason, EnergyReason, Level, RecommendedBackend, SystemSignal};
use vstd::prelude::*;
use vstd::string::*;

verus! {

pub const MANAGER_NAME: &'static str = "org.llm.Manager1";

pub const MANAGER_PATH: &'static str = "/org/llm/Manager1";

pub const MANAGER_IFACE: &'static str = "org.llm.Manager1";

/// One argument of a message.
#[derive(Debug, Clone)]
pub enum DbusArg {
    Text(String),
    Unsigned(u64),
    Word(u32),
    Signed(i32),
    Flag(bool),
    Number(F64),
}

/// What an argument holds.
pub ghost enum DbusValue {
    Text(Seq<char>),
    Unsigned(u64),
    Word(u32),
    Signed(i32),
    Flag(bool),
    Number(F64),
}

impl View for DbusArg {
    type V = DbusValue;

    open spec fn view(&self) -> DbusValue {
        match *self {
            DbusArg::Text(s) => DbusValue::Text(s@),
            DbusArg::Unsigned(n) => DbusValue::Unsigned(n),
            DbusArg::Word(n) => DbusValue::Word(n),
            DbusArg::Signed(n) => DbusValue::Signed(n),
            DbusArg::Flag(b) => DbusValue::Flag(b),
            DbusArg::Number(x) => DbusValue::Number(x),
        }
    }
}

/// A message of the manager.
#[derive(Debug, Clone)]
pub struct DbusMessage {
    pub member: String,
    pub args: Vec<DbusArg>,
}

/// What a message says.
pub ghost struct DbusContent {
    pub member: Seq<char>,
    pub args: Seq<DbusValue>,
}

impl View for DbusMessage {
    type V = DbusContent;

    open spec fn view(&self) -> DbusContent {
        DbusContent {
            member: self.member@,
            args: self.args@.map_values(|a: DbusArg| a@),
        }
    }
}

/// The message of a signal.
pub open spec fn signal_content(signal: SystemSignal) -> DbusContent {
    match signal {
        SystemSignal::MemoryPressure {
            level,
            available_bytes,
            total_bytes,
            reclaim_target_bytes,
        } => DbusContent {
            member: "MemoryPressure"@,
            args: seq![
                DbusValue::Text(level.dbus_name()),
                DbusValue::Unsigned(available_bytes),
                DbusValue::Unsigned(total_bytes),
                DbusValue::Unsigned(reclaim_target_bytes),
            ],
        },
        SystemSignal::ComputeGuidance {
            level,
            recommended_backend,
            reason,
            cpu_usage_pct,
            gpu_usage_pct,
        } => DbusContent {
            member: "ComputeGuidance"@,
            args: seq![
                DbusValue::Text(level.dbus_name()),
                DbusValue::Text(recommended_backend.dbus_name()),
                DbusValue::Text(reason.dbus_name()),
                DbusValue::Number(cpu_usage_pct),
                DbusValue::Number(gpu_usage_pct),
            ],
        },
        SystemSignal::ThermalAlert {
            level,
            temperature_mc,
            throttling_active,
            throttle_ratio,
        } => DbusContent {
            member: "ThermalAlert"@,
            args: seq![
                DbusValue::Text(level.dbus_name()),
                DbusValue::Signed(temperature_mc),
                DbusValue::Flag(throttling_active),
                DbusValue::Number(throttle_ratio),
            ],
        },
        SystemSignal::EnergyConstraint { level, reason, power_budget_mw } => DbusContent {
            member: "EnergyConstraint"@,
            args: seq![
                DbusValue::Text(level.dbus_name()),
                DbusValue::Text(reason.dbus_name()),
                DbusValue::Word(power_budget_mw),
            ],
        },
    }
}

/// Builds the message of a signal.
pub fn signal_message(signal: &SystemSignal) -> (r: DbusMessage)
    ensures
        r@ == signal_content(*signal),
{
    let r: DbusMessage = match signal {
        SystemSignal::MemoryPressure {
            level,
            available_bytes,
            total_bytes,
            reclaim_target_bytes,
        } => DbusMessage {
            member: "MemoryPressure".to_owned(),
            args: vec![
                DbusArg::Text(level_to_str(*level).to_owned()),
                DbusArg::Unsigned(*available_bytes),
                DbusArg::Unsigned(*total_bytes),
                DbusArg::Unsigned(*reclaim_target_bytes),
            ],
        },
        SystemSignal::ComputeGuidance {
            level,
            recommended_backend,
            reason,
            cpu_usage_pct,
            gpu_usage_pct,
        } => DbusMessage {
            member: "ComputeGuidance".to_owned(),
            args: vec![
                DbusArg::Text(level_to_str(*level).to_owned()),
                DbusArg::Text(backend_to_str(*recommended_backend).to_owned()),
                DbusArg::Text(compute_reason_to_str(*reason).to_owned()),
                DbusArg::Number(*cpu_usage_pct),
                DbusArg::Number(*gpu_usage_pct),
            ],
        },
        SystemSignal::ThermalAlert {
            level,
            temperature_mc,
            throttling_active,
            throttle_ratio,
        } => DbusMessage {
            member: "ThermalAlert".to_owned(),
            args: vec![
                DbusArg::Text(level_to_str(*level).to_owned()),
                DbusArg::Signed(*temperature_mc),
                DbusArg::Flag(*throttling_active),
                DbusArg::Number(*throttle_ratio),
            ],
        },
        SystemSignal::EnergyConstraint { level, reason, power_budget_mw } => DbusMessage {
            member: "EnergyConstraint".to_owned(),
            args: vec![
                DbusArg::Text(level_to_str(*level).to_owned()),
                DbusArg::Text(energy_reason_to_str(*reason).to_owned()),
                DbusArg::Word(*power_budget_mw),
            ],
        },
    };
    proof {
        assert(r@.args =~= signal_content(*signal).args);
    }
    r
}

/// Builds the messages of signals, in their order.
pub fn initial_messages(signals: &Vec<SystemSignal>) -> (r: Vec<DbusMessage>)
    ensures
        r@.len() == signals@.len(),
        forall|i: int| 0 <= i < r@.len() ==> (#[trigger] r@[i])@ == signal_content(signals@[i]),
{
    let mut r: Vec<DbusMessage> = Vec::new();
    let mut i: usize = 0;
    while i < signals.len()
        invariant
            i <= signals.len(),
            r@.len() == i,
            forall|j: int| 0 <= j < i ==> (#[trigger] r@[j])@ == signal_content(signals@[j]),
        decreases signals.len() - i,
    {
        r.push(signal_message(&signals[i]));
        i = i + 1;
    }
    r
}

pub fn level_to_str(level: Level) -> (r: &'static str)
    ensures
        r@ == level.dbus_name(),
{
    match level {
        Level::Normal => "normal",
        Level::Warning => "warning",
        Level::Critical => "critical",
        Level::Emergency => "emergency",
    }
}

pub fn backend_to_str(backend: RecommendedBackend) -> (r: &'static str)
    ensures
        r@ == backend.dbus_name(),
{
    match backend {
        RecommendedBackend::Cpu => "cpu",
        RecommendedBackend::Gpu => "gpu",
        RecommendedBackend::Any => "any",
    }
}

pub fn compute_reason_to_str(reason: ComputeReason) -> (r: &'static str)
    ensures
        r@ == reason.dbus_name(),
{
    match reason {
        ComputeReason::CpuBottleneck => "cpu_bottleneck",
        ComputeReason::GpuBottleneck => "gpu_bottleneck",
        ComputeReason::CpuAvailable => "cpu_available",
        ComputeReason::GpuAvailable => "gpu_available",
        ComputeReason::BothLoaded => "both_loaded",
        ComputeReason::Balanced => "balanced",
    }
}

pub fn energy_reason_to_str(reason: EnergyReason) -> (r: &'static str)
    ensures
        r@ == reason.dbus_name(),
{
    match reason {
        EnergyReason::BatteryLow => "battery_low",
        EnergyReason::BatteryCritical => "battery_critical",
        EnergyReason::PowerLimit => "power_limit",
        EnergyReason::ThermalPower => "thermal_power",
        EnergyReason::Charging => "charging",
        EnergyReason::NoReason => "none",
    }
}

/// What is written to the bus is read back from it.
pub proof fn law_names_are_read_back(
    level: Level,
    backend: RecommendedBackend,
    compute: ComputeReason,
    energy: EnergyReason,
)
    ensures
        forall|l: Level| (#[trigger] l.dbus_name()) == level.dbus_name() ==> l == level,
        forall|b: RecommendedBackend|
            (#[trigger] b.dbus_name()) == backend.dbus_name() ==> b == backend,
        forall|c: ComputeReason| (#[trigger] c.dbus_name()) == compute.dbus_name() ==> c == compute,
        forall|e: EnergyReason| (#[trigger] e.dbus_name()) == energy.dbus_name() ==> e == energy,
{
    Level::lemma_names_differ();
    RecommendedBackend::lemma_names_differ();
    ComputeReason::lemma_names_differ();
    EnergyReason::lemma_names_differ();
}

} // verus!
