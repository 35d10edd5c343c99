//! Resource signals that the monitors produce and the policy consumes.
//!
//! The engine never sees these: the manager decides and sends a directive, the engine reports.
//! They are the vocabulary between the monitors and the policy, and what the D-Bus emitter
//! renders.

use crate::float::F64;
use crate::text::same;
use vstd::prelude::*;

verus! {

/// Common severity level shared by all signals.
///
/// Ordered by severity: normal, warning, critical, emergency.
#[derive(Debug, Clone, Copy, PartialEq, Eq, PartialOrd, Ord, Hash, Structural)]
pub enum Level {
    Normal,
    Warning,
    Critical,
    Emergency,
}

impl Level {
    /// The name on the D-Bus wire.
    pub open spec fn dbus_name(self) -> Seq<char> {
        match self {
            Level::Normal => "normal"@,
            Level::Warning => "warning"@,
            Level::Critical => "critical"@,
            Level::Emergency => "emergency"@,
        }
    }

    /// The value whose D-Bus name is `s`, if there is one.
    pub fn from_dbus_str(s: &str) -> (r: Option<Self>)
        ensures
            match r {
                Some(v) => v.dbus_name() == s@,
                None => forall|v: Self| (#[trigger] v.dbus_name()) != s@,
            },
            forall|v: Self| (#[trigger] v.dbus_name()) == s@ ==> r == Some(v),
    {
        proof {
            Self::lemma_names_differ();
        }
        let r: Option<Self> = if same(s, "normal") {
            Some(Level::Normal)
        } else if same(s, "warning") {
            Some(Level::Warning)
        } else if same(s, "critical") {
            Some(Level::Critical)
        } else if same(s, "emergency") {
            Some(Level::Emergency)
        } else {
            None
        };
        proof {
            if let Some(v) = r {
                assert(v.dbus_name() == s@);
            }
        }
        r
    }

    /// No two values share a name.
    pub proof fn lemma_names_differ()
        ensures
            forall|a: Self, b: Self|
                (#[trigger] a.dbus_name()) == (#[trigger] b.dbus_name()) ==> a == b,
    {
        reveal_strlit("normal");
        reveal_strlit("warning");
        reveal_strlit("critical");
        reveal_strlit("emergency");
        assert forall|a: Self, b: Self|
            (#[trigger] a.dbus_name()) == (#[trigger] b.dbus_name()) implies a == b by {
            assert(a.dbus_name().len() == b.dbus_name().len());
            assert(a.dbus_name()[0] == b.dbus_name()[0]);
            assert(a.dbus_name()[4] == b.dbus_name()[4]);
        }
    }
}

/// The compute backend that the manager recommends.
#[derive(Debug, Clone, Copy, PartialEq, Eq, Structural)]
pub enum RecommendedBackend {
    Cpu,
    Gpu,
    Any,
}

impl RecommendedBackend {
    /// The name on the D-Bus wire.
    pub open spec fn dbus_name(self) -> Seq<char> {
        match self {
            RecommendedBackend::Cpu => "cpu"@,
            RecommendedBackend::Gpu => "gpu"@,
            RecommendedBackend::Any => "any"@,
        }
    }

    /// The value whose D-Bus name is `s`, if there is one.
    pub fn from_dbus_str(s: &str) -> (r: Option<Self>)
        ensures
            match r {
                Some(v) => v.dbus_name() == s@,
                None => forall|v: Self| (#[trigger] v.dbus_name()) != s@,
            },
            forall|v: Self| (#[trigger] v.dbus_name()) == s@ ==> r == Some(v),
    {
        proof {
            Self::lemma_names_differ();
        }
        let r: Option<Self> = if same(s, "cpu") {
            Some(RecommendedBackend::Cpu)
        } else if same(s, "gpu") {
            Some(RecommendedBackend::Gpu)
        } else if same(s, "any") {
            Some(RecommendedBackend::Any)
        } else {
            None
        };
        proof {
            if let Some(v) = r {
                assert(v.dbus_name() == s@);
            }
        }
        r
    }

    /// No two values share a name.
    pub proof fn lemma_names_differ()
        ensures
            forall|a: Self, b: Self|
                (#[trigger] a.dbus_name()) == (#[trigger] b.dbus_name()) ==> a == b,
    {
        reveal_strlit("cpu");
        reveal_strlit("gpu");
        reveal_strlit("any");
        assert forall|a: Self, b: Self|
            (#[trigger] a.dbus_name()) == (#[trigger] b.dbus_name()) implies a == b by {
            assert(a.dbus_name().len() == b.dbus_name().len());
            assert(a.dbus_name()[0] == b.dbus_name()[0]);
            assert(a.dbus_name()[4] == b.dbus_name()[4]);
        }
    }
}

/// Why compute guidance is given.
#[derive(Debug, Clone, Copy, PartialEq, Eq, Structural)]
pub enum ComputeReason {
    CpuBottleneck,
    GpuBottleneck,
    CpuAvailable,
    GpuAvailable,
    BothLoaded,
    Balanced,
}

impl ComputeReason {
    /// The name on the D-Bus wire.
    pub open spec fn dbus_name(self) -> Seq<char> {
        match self {
            ComputeReason::CpuBottleneck => "cpu_bottleneck"@,
            ComputeReason::GpuBottleneck => "gpu_bottleneck"@,
            ComputeReason::CpuAvailable => "cpu_available"@,
            ComputeReason::GpuAvailable => "gpu_available"@,
            ComputeReason::BothLoaded => "both_loaded"@,
            ComputeReason::Balanced => "balanced"@,
        }
    }

    /// The value whose D-Bus name is `s`, if there is one.
    pub fn from_dbus_str(s: &str) -> (r: Option<Self>)
        ensures
            match r {
                Some(v) => v.dbus_name() == s@,
                None => forall|v: Self| (#[trigger] v.dbus_name()) != s@,
            },
            forall|v: Self| (#[trigger] v.dbus_name()) == s@ ==> r == Some(v),
    {
        proof {
            Self::lemma_names_differ();
        }
        let r: Option<Self> = if same(s, "cpu_bottleneck") {
            Some(ComputeReason::CpuBottleneck)
        } else if same(s, "gpu_bottleneck") {
            Some(ComputeReason::GpuBottleneck)
        } else if same(s, "cpu_available") {
            Some(ComputeReason::CpuAvailable)
        } else if same(s, "gpu_available") {
            Some(ComputeReason::GpuAvailable)
        } else if same(s, "both_loaded") {
            Some(ComputeReason::BothLoaded)
        } else if same(s, "balanced") {
            Some(ComputeReason::Balanced)
        } else {
            None
        };
        proof {
            if let Some(v) = r {
                assert(v.dbus_name() == s@);
            }
        }
        r
    }

    /// No two values share a name.
    pub proof fn lemma_names_differ()
        ensures
            forall|a: Self, b: Self|
                (#[trigger] a.dbus_name()) == (#[trigger] b.dbus_name()) ==> a == b,
    {
        reveal_strlit("cpu_bottleneck");
        reveal_strlit("gpu_bottleneck");
        reveal_strlit("cpu_available");
        reveal_strlit("gpu_available");
        reveal_strlit("both_loaded");
        reveal_strlit("balanced");
        assert forall|a: Self, b: Self|
            (#[trigger] a.dbus_name()) == (#[trigger] b.dbus_name()) implies a == b by {
            assert(a.dbus_name().len() == b.dbus_name().len());
            assert(a.dbus_name()[0] == b.dbus_name()[0]);
            assert(a.dbus_name()[4] == b.dbus_name()[4]);
        }
    }
}

/// Why energy is constrained.
#[derive(Debug, Clone, Copy, PartialEq, Eq, Structural)]
pub enum EnergyReason {
    BatteryLow,
    BatteryCritical,
    PowerLimit,
    ThermalPower,
    Charging,
    NoReason,
}

impl EnergyReason {
    /// The name on the D-Bus wire.
    pub open spec fn dbus_name(self) -> Seq<char> {
        match self {
            EnergyReason::BatteryLow => "battery_low"@,
            EnergyReason::BatteryCritical => "battery_critical"@,
            EnergyReason::PowerLimit => "power_limit"@,
            EnergyReason::ThermalPower => "thermal_power"@,
            EnergyReason::Charging => "charging"@,
            EnergyReason::NoReason => "none"@,
        }
    }

    /// The value whose D-Bus name is `s`, if there is one.
    pub fn from_dbus_str(s: &str) -> (r: Option<Self>)
        ensures
            match r {
                Some(v) => v.dbus_name() == s@,
                None => forall|v: Self| (#[trigger] v.dbus_name()) != s@,
            },
            forall|v: Self| (#[trigger] v.dbus_name()) == s@ ==> r == Some(v),
    {
        proof {
            Self::lemma_names_differ();
        }
        let r: Option<Self> = if same(s, "battery_low") {
            Some(EnergyReason::BatteryLow)
        } else if same(s, "battery_critical") {
            Some(EnergyReason::BatteryCritical)
        } else if same(s, "power_limit") {
            Some(EnergyReason::PowerLimit)
        } else if same(s, "thermal_power") {
            Some(EnergyReason::ThermalPower)
        } else if same(s, "charging") {
            Some(EnergyReason::Charging)
        } else if same(s, "none") {
            Some(EnergyReason::NoReason)
        } else {
            None
        };
        proof {
            if let Some(v) = r {
                assert(v.dbus_name() == s@);
            }
        }
        r
    }

    /// No two values share a name.
    pub proof fn lemma_names_differ()
        ensures
            forall|a: Self, b: Self|
                (#[trigger] a.dbus_name()) == (#[trigger] b.dbus_name()) ==> a == b,
    {
        reveal_strlit("battery_low");
        reveal_strlit("battery_critical");
        reveal_strlit("power_limit");
        reveal_strlit("thermal_power");
        reveal_strlit("charging");
        reveal_strlit("none");
        assert forall|a: Self, b: Self|
            (#[trigger] a.dbus_name()) == (#[trigger] b.dbus_name()) implies a == b by {
            assert(a.dbus_name().len() == b.dbus_name().len());
            assert(a.dbus_name()[0] == b.dbus_name()[0]);
            assert(a.dbus_name()[4] == b.dbus_name()[4]);
        }
    }
}

/// A reading of one resource, with the level that its monitor assigns to it.
#[allow(inconsistent_fields)]
#[derive(Debug, Clone, Copy)]
pub enum SystemSignal {
    MemoryPressure {
        level: Level,
        available_bytes: u64,
        total_bytes: u64,
        reclaim_target_bytes: u64,
    },
    ComputeGuidance {
        level: Level,
        recommended_backend: RecommendedBackend,
        reason: ComputeReason,
        cpu_usage_pct: F64,
        gpu_usage_pct: F64,
    },
    ThermalAlert {
        level: Level,
        temperature_mc: i32,
        throttling_active: bool,
        throttle_ratio: F64,
    },
    EnergyConstraint { level: Level, reason: EnergyReason, power_budget_mw: u32 },
}

impl SystemSignal {
    pub open spec fn spec_level(&self) -> Level {
        match *self {
            SystemSignal::MemoryPressure { level, .. } => level,
            SystemSignal::ComputeGuidance { level, .. } => level,
            SystemSignal::ThermalAlert { level, .. } => level,
            SystemSignal::EnergyConstraint { level, .. } => level,
        }
    }

    /// The level of a signal of any kind.
    #[verifier::when_used_as_spec(spec_level)]
    pub fn level(&self) -> (r: Level)
        ensures
            r == self.level(),
    {
        match self {
            SystemSignal::MemoryPressure { level, .. } => *level,
            SystemSignal::ComputeGuidance { level, .. } => *level,
            SystemSignal::ThermalAlert { level, .. } => *level,
            SystemSignal::EnergyConstraint { level, .. } => *level,
        }
    }
}

} // verus!
