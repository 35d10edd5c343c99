//! What is decided where the script's machine is unusable.
//!
//! This is not a policy. It lets a broken script degrade to something conservative rather than
//! to nothing, and has no thresholds of its own: the levels come from the monitors.

use crate::float::F32;
use crate::signal::{Level, SystemSignal};
use crate::wire::EngineCommand;
use vstd::prelude::*;

verus! {

/// The budget that memory at a level is answered with: 0.85, 0.50 and 0.25 of the cache.
pub open spec fn fallback_budget(level: Level) -> Option<F32> {
    match level {
        Level::Normal => None,
        Level::Warning => Some(F32 { bits: 0x3f59_999a }),
        Level::Critical => Some(F32 { bits: 0x3f00_0000 }),
        Level::Emergency => Some(F32 { bits: 0x3e80_0000 }),
    }
}

/// Only the memory axis acts: it compresses in proportion to pressure, and releases when the
/// pressure clears. To compress because the chip is hot would be a policy decision.
pub open spec fn fallback_commands(signal: SystemSignal) -> Seq<EngineCommand> {
    match signal {
        SystemSignal::MemoryPressure { level, .. } => match fallback_budget(level) {
            Some(budget) => seq![EngineCommand::KvCompress { budget }],
            None => seq![EngineCommand::RestoreDefaults],
        },
        _ => Seq::empty(),
    }
}

pub fn fallback_decide(signal: &SystemSignal) -> (r: Vec<EngineCommand>)
    ensures
        r@ == fallback_commands(*signal),
{
    let r: Vec<EngineCommand> = match signal {
        SystemSignal::MemoryPressure { level, .. } => match level {
            Level::Normal => vec![EngineCommand::RestoreDefaults],
            Level::Warning => vec![EngineCommand::KvCompress { budget: F32 { bits: 0x3f59_999a } }],
            Level::Critical => vec![EngineCommand::KvCompress { budget: F32 { bits: 0x3f00_0000 } }],
            Level::Emergency => vec![EngineCommand::KvCompress { budget: F32 { bits: 0x3e80_0000 } }],
        },
        SystemSignal::ThermalAlert { .. } => Vec::new(),
        SystemSignal::ComputeGuidance { .. } => Vec::new(),
        SystemSignal::EnergyConstraint { .. } => Vec::new(),
    };
    proof {
        assert(r@ =~= fallback_commands(*signal));
    }
    r
}

/// Only the memory axis is answered, and always with one command.
pub proof fn law_only_memory_acts(signal: SystemSignal)
    ensures
        fallback_commands(signal).len() == if signal is MemoryPressure {
            1int
        } else {
            0
        },
{
}

/// How severe a level is.
pub open spec fn severity(level: Level) -> int {
    match level {
        Level::Normal => 0,
        Level::Warning => 1,
        Level::Critical => 2,
        Level::Emergency => 3,
    }
}

/// A more severe level is answered with a smaller budget, and every budget is a usable fraction:
/// above zero and below one.
pub proof fn law_budget_tightens(a: Level, b: Level)
    requires
        1 <= severity(a) < severity(b),
    ensures
        fallback_budget(a) is Some,
        fallback_budget(b) is Some,
        fallback_budget(b)->Some_0.lt(fallback_budget(a)->Some_0),
        (F32 { bits: 0 }).lt(fallback_budget(b)->Some_0),
        fallback_budget(a)->Some_0.lt(F32 { bits: 0x3f80_0000 }),
{
}

} // verus!
