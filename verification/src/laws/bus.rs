//! What a message on the bus tells of its signal.

use crate::emitter::dbus::{signal_content, DbusContent, DbusValue};
use crate::signal::{ComputeReason, EnergyReason, Level, RecommendedBackend, SystemSignal};
use vstd::prelude::*;

verus! {

/// Each value has the name on the bus that its kind is known by.
pub proof fn law_names_on_the_bus(
    level: Level,
    backend: RecommendedBackend,
    compute: ComputeReason,
    energy: EnergyReason,
)
    ensures
        level is Normal ==> level.dbus_name() == "normal"@,
        level is Warning ==> level.dbus_name() == "warning"@,
        level is Critical ==> level.dbus_name() == "critical"@,
        level is Emergency ==> level.dbus_name() == "emergency"@,
        backend is Cpu ==> backend.dbus_name() == "cpu"@,
        backend is Gpu ==> backend.dbus_name() == "gpu"@,
        backend is Any ==> backend.dbus_name() == "any"@,
        compute is CpuBottleneck ==> compute.dbus_name() == "cpu_bottleneck"@,
        compute is GpuBottleneck ==> compute.dbus_name() == "gpu_bottleneck"@,
        compute is CpuAvailable ==> compute.dbus_name() == "cpu_available"@,
        compute is GpuAvailable ==> compute.dbus_name() == "gpu_available"@,
        compute is BothLoaded ==> compute.dbus_name() == "both_loaded"@,
        compute is Balanced ==> compute.dbus_name() == "balanced"@,
        energy is BatteryLow ==> energy.dbus_name() == "battery_low"@,
        energy is BatteryCritical ==> energy.dbus_name() == "battery_critical"@,
        energy is PowerLimit ==> energy.dbus_name() == "power_limit"@,
        energy is ThermalPower ==> energy.dbus_name() == "thermal_power"@,
        energy is Charging ==> energy.dbus_name() == "charging"@,
        energy is NoReason ==> energy.dbus_name() == "none"@,
{
}

/// Every message begins with the name of its signal's own level.
pub proof fn law_messages_begin_with_the_level(signal: SystemSignal)
    ensures
        signal_content(signal).args.len() > 0,
        signal_content(signal).args[0] == DbusValue::Text(signal.level().dbus_name()),
        match signal {
            SystemSignal::MemoryPressure { level, .. } => signal.level() == level,
            SystemSignal::ComputeGuidance { level, .. } => signal.level() == level,
            SystemSignal::ThermalAlert { level, .. } => signal.level() == level,
            SystemSignal::EnergyConstraint { level, .. } => signal.level() == level,
        },
{
}

/// Each reading stands at its own place of the message, as it was read.
pub proof fn law_readings_stand_at_their_places(signal: SystemSignal)
    ensures
        ({
            let m = signal_content(signal);
            match signal {
                SystemSignal::MemoryPressure { .. } => {
                    &&& m.member == "MemoryPressure"@
                    &&& m.args.len() == 4
                    &&& m.args[1] == DbusValue::Unsigned(signal->available_bytes)
                    &&& m.args[2] == DbusValue::Unsigned(signal->total_bytes)
                    &&& m.args[3] == DbusValue::Unsigned(signal->reclaim_target_bytes)
                },
                SystemSignal::ComputeGuidance { .. } => {
                    &&& m.member == "ComputeGuidance"@
                    &&& m.args.len() == 5
                    &&& m.args[1] == DbusValue::Text(signal->recommended_backend.dbus_name())
                    &&& m.args[2] == DbusValue::Text(
                        signal->ComputeGuidance_reason.dbus_name(),
                    )
                    &&& m.args[3] == DbusValue::Number(signal->cpu_usage_pct)
                    &&& m.args[4] == DbusValue::Number(signal->gpu_usage_pct)
                },
                SystemSignal::ThermalAlert { .. } => {
                    &&& m.member == "ThermalAlert"@
                    &&& m.args.len() == 4
                    &&& m.args[1] == DbusValue::Signed(signal->temperature_mc)
                    &&& m.args[2] == DbusValue::Flag(signal->throttling_active)
                    &&& m.args[3] == DbusValue::Number(signal->throttle_ratio)
                },
                SystemSignal::EnergyConstraint { .. } => {
                    &&& m.member == "EnergyConstraint"@
                    &&& m.args.len() == 3
                    &&& m.args[1] == DbusValue::Text(signal->EnergyConstraint_reason.dbus_name())
                    &&& m.args[2] == DbusValue::Word(signal->power_budget_mw)
                },
            }
        }),
{
}

/// The message of a signal says all of it: two signals with the same message are the same.
pub proof fn law_a_message_tells_its_signal(a: SystemSignal, b: SystemSignal)
    requires
        signal_content(a) == signal_content(b),
    ensures
        a == b,
{
    reveal_strlit("MemoryPressure");
    reveal_strlit("ComputeGuidance");
    reveal_strlit("ThermalAlert");
    reveal_strlit("EnergyConstraint");
    Level::lemma_names_differ();
    RecommendedBackend::lemma_names_differ();
    ComputeReason::lemma_names_differ();
    EnergyReason::lemma_names_differ();
    law_messages_begin_with_the_level(a);
    law_messages_begin_with_the_level(b);
    law_readings_stand_at_their_places(a);
    law_readings_stand_at_their_places(b);
    assert("MemoryPressure"@.len() == 14 && "ComputeGuidance"@.len() == 15 && "ThermalAlert"@.len()
        == 12 && "EnergyConstraint"@.len() == 16);
    assert(signal_content(a).member.len() == signal_content(b).member.len());
    assert(DbusContent { ..signal_content(a) }.args == signal_content(b).args);
}

} // verus!
