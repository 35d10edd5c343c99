//! The latest readings, the pressure that they stand for, and the triggers they set off.

use crate::config::TriggerConfig;
use crate::float::order::{
    law_clamped_follows, law_from_signed_follows, law_from_whole_follows,
    law_minus_falls_with_its_second, law_minus_follows_its_first,
    law_minus_of_no_more_is_not_positive, law_over_follows_its_first, lemma_small_minus_is_finite,
    lemma_thousandth,
};
use crate::float::{
    law_narrowed_is_a_number, law_numbers_stay_numbers, law_whole_is_finite, F32, F64,
};
use vstd::prelude::*;

verus! {

/// The number of pressure axes: GPU, CPU, memory, thermal, latency and the main application.
pub const RELIEF_DIMS: usize = 6;

/// Pressure on each axis.
#[derive(Debug, Clone, Copy)]
pub struct Pressure6D {
    pub gpu: F32,
    pub cpu: F32,
    pub memory: F32,
    pub thermal: F32,
    pub latency: F32,
    pub main_app: F32,
}

impl Default for Pressure6D {
    fn default() -> (r: Self)
        ensures
            r == (Pressure6D {
                gpu: F32 { bits: 0 },
                cpu: F32 { bits: 0 },
                memory: F32 { bits: 0 },
                thermal: F32 { bits: 0 },
                latency: F32 { bits: 0 },
                main_app: F32 { bits: 0 },
            }),
    {
        let zero: F32 = F32 { bits: 0 };
        Pressure6D {
            gpu: zero,
            cpu: zero,
            memory: zero,
            thermal: zero,
            latency: zero,
            main_app: zero,
        }
    }
}

impl From<Pressure6D> for [F32; 6] {
    fn from(p: Pressure6D) -> (r: [F32; 6]) {
        let r: [F32; 6] = [p.gpu, p.cpu, p.memory, p.thermal, p.latency, p.main_app];
        r
    }
}

impl vstd::std_specs::convert::FromSpecImpl<Pressure6D> for [F32; 6] {
    open spec fn obeys_from_spec() -> bool {
        true
    }

    open spec fn from_spec(p: Pressure6D) -> [F32; 6] {
        [p.gpu, p.cpu, p.memory, p.thermal, p.latency, p.main_app]
    }
}

/// The latest reading of each resource.
#[derive(Debug, Clone, Copy)]
pub struct SignalState {
    pub cpu_pct: F64,
    pub gpu_pct: F64,
    pub mem_available: u64,
    pub mem_total: u64,
    pub temp_mc: i32,
    pub throttling: bool,
}

impl Default for SignalState {
    fn default() -> (r: Self)
        ensures
            r == SignalState::unread(),
    {
        SignalState {
            cpu_pct: F64 { bits: 0 },
            gpu_pct: F64 { bits: 0 },
            mem_available: 0,
            mem_total: 0,
            temp_mc: 0,
            throttling: false,
        }
    }
}

impl SignalState {
    /// Before any reading everything is zero.
    pub open spec fn unread() -> SignalState {
        SignalState {
            cpu_pct: F64 { bits: 0 },
            gpu_pct: F64 { bits: 0 },
            mem_available: 0,
            mem_total: 0,
            temp_mc: 0,
            throttling: false,
        }
    }

    pub fn update_compute(&mut self, cpu_pct: F64, gpu_pct: F64)
        ensures
            *final(self) == (SignalState { cpu_pct, gpu_pct, ..*old(self) }),
    {
        self.cpu_pct = cpu_pct;
        self.gpu_pct = gpu_pct;
    }

    pub fn update_memory(&mut self, available: u64, total: u64)
        ensures
            *final(self) == (SignalState {
                mem_available: available,
                mem_total: total,
                ..*old(self)
            }),
    {
        self.mem_available = available;
        self.mem_total = total;
    }

    pub fn update_thermal(&mut self, temp_mc: i32, throttling: bool)
        ensures
            *final(self) == (SignalState { temp_mc, throttling, ..*old(self) }),
    {
        self.temp_mc = temp_mc;
        self.throttling = throttling;
    }

    /// The share of memory that is taken, or nothing where the total is unknown.
    pub open spec fn memory_taken(self) -> F32 {
        if self.mem_total > 0 {
            one32().minus(F32::from_whole(self.mem_available).over(F32::from_whole(self.mem_total)))
        } else {
            zero32()
        }
    }

    /// Where the temperature lies between the safe and the critical one.
    pub open spec fn heat(self, temp_safe_c: F32, temp_critical_c: F32) -> F32 {
        let temp_c = F32::from_signed(self.temp_mc).over(F32 { bits: 0x447a_0000 });
        let temp_range = temp_critical_c.minus(temp_safe_c);
        if zero32().lt(temp_range) {
            temp_c.minus(temp_safe_c).over(temp_range).clamped(zero32(), one32())
        } else {
            zero32()
        }
    }

    pub open spec fn spec_pressure_with_thermal(
        &self,
        temp_safe_c: F32,
        temp_critical_c: F32,
        latency_ratio: Option<F64>,
    ) -> Pressure6D {
        Pressure6D {
            gpu: share_of_hundred(self.gpu_pct),
            cpu: share_of_hundred(self.cpu_pct),
            memory: self.memory_taken().clamped(zero32(), one32()),
            thermal: self.heat(temp_safe_c, temp_critical_c),
            latency: match latency_ratio {
                Some(ratio) => ratio.narrow(),
                None => zero32(),
            },
            main_app: zero32(),
        }
    }

    /// The pressure on each axis. GPU, CPU, memory and thermal pressure lie between zero and
    /// one; latency is the degradation as it is, and the main application is not measured.
    #[verifier::when_used_as_spec(spec_pressure_with_thermal)]
    pub fn pressure_with_thermal(
        &self,
        temp_safe_c: F32,
        temp_critical_c: F32,
        latency_ratio: Option<F64>,
    ) -> (r: Pressure6D)
        ensures
            r == self.pressure_with_thermal(temp_safe_c, temp_critical_c, latency_ratio),
    {
        let zero: F32 = F32 { bits: 0 };
        let one: F32 = F32 { bits: 0x3f80_0000 };
        let mem_pressure: F32 = if self.mem_total > 0 {
            one.minus(F32::from_whole(self.mem_available).over(F32::from_whole(self.mem_total)))
        } else {
            zero
        };
        let temp_c: F32 = F32::from_signed(self.temp_mc).over(F32 { bits: 0x447a_0000 });
        let temp_range: F32 = temp_critical_c.minus(temp_safe_c);
        let thermal: F32 = if zero.lt(temp_range) {
            temp_c.minus(temp_safe_c).over(temp_range).clamped(zero, one)
        } else {
            zero
        };
        let hundred: F32 = F32 { bits: 0x42c8_0000 };
        Pressure6D {
            gpu: self.gpu_pct.narrow().over(hundred).clamped(zero, one),
            cpu: self.cpu_pct.narrow().over(hundred).clamped(zero, one),
            memory: mem_pressure.clamped(zero, one),
            thermal,
            latency: match latency_ratio {
                Some(ratio) => ratio.narrow(),
                None => zero,
            },
            main_app: zero,
        }
    }
}

pub open spec fn zero32() -> F32 {
    F32 { bits: 0 }
}

pub open spec fn one32() -> F32 {
    F32 { bits: 0x3f80_0000 }
}

pub open spec fn zero64() -> F64 {
    F64 { bits: 0 }
}

/// A percentage as a share between zero and one.
pub open spec fn share_of_hundred(pct: F64) -> F32 {
    pct.narrow().over(F32 { bits: 0x42c8_0000 }).clamped(zero32(), one32())
}

/// What has been set off.
#[derive(Debug, Clone, Copy, PartialEq, Eq, Structural)]
pub struct TriggerState {
    pub tbt_degraded: bool,
    pub mem_low: bool,
    pub temp_high: bool,
}

impl Default for TriggerState {
    fn default() -> (r: Self)
        ensures
            r == (TriggerState { tbt_degraded: false, mem_low: false, temp_high: false }),
    {
        TriggerState { tbt_degraded: false, mem_low: false, temp_high: false }
    }
}

/// The time between tokens: a moving average, and the baseline that it had after the warmup.
#[derive(Debug, Clone, Copy)]
pub struct TbtTracker {
    pub ewma: F64,
    pub baseline: Option<F64>,
    pub warmup_count: u32,
    pub warmup_target: u32,
}

impl TbtTracker {
    pub open spec fn spec_new(warmup_target: u32) -> TbtTracker {
        TbtTracker { ewma: zero64(), baseline: None, warmup_count: 0, warmup_target }
    }

    #[verifier::when_used_as_spec(spec_new)]
    pub fn new(warmup_target: u32) -> (r: Self)
        ensures
            r == TbtTracker::new(warmup_target),
    {
        TbtTracker { ewma: F64 { bits: 0 }, baseline: None, warmup_count: 0, warmup_target }
    }

    /// The tracker after one more time. The first one is the average; each later one counts for
    /// an eighth. The average is the baseline once the warmup is over. The count starts again
    /// after the last number that it can hold.
    pub open spec fn observed(self, tbt_ms: F64) -> TbtTracker {
        let ewma = if self.warmup_count == 0 {
            tbt_ms
        } else {
            F64 { bits: 0x3fec_0000_0000_0000 }.times(self.ewma).plus(
                F64 { bits: 0x3fc0_0000_0000_0000 }.times(tbt_ms),
            )
        };
        let warmup_count = if self.warmup_count == u32::MAX {
            0
        } else {
            (self.warmup_count + 1) as u32
        };
        TbtTracker {
            ewma,
            baseline: if self.baseline is None && warmup_count >= self.warmup_target {
                Some(ewma)
            } else {
                self.baseline
            },
            warmup_count,
            warmup_target: self.warmup_target,
        }
    }

    pub fn observe(&mut self, tbt_ms: F64)
        ensures
            *final(self) == old(self).observed(tbt_ms),
    {
        if self.warmup_count == 0 {
            self.ewma = tbt_ms;
        } else {
            self.ewma =
            F64 { bits: 0x3fec_0000_0000_0000 }.times(self.ewma).plus(
                F64 { bits: 0x3fc0_0000_0000_0000 }.times(tbt_ms),
            );
        }
        self.warmup_count = self.warmup_count.wrapping_add(1);
        if self.baseline.is_none() && self.warmup_count >= self.warmup_target {
            self.baseline = Some(self.ewma);
        }
    }

    pub open spec fn spec_degradation_ratio(&self) -> Option<F64> {
        match self.baseline {
            Some(b) => Some(
                if zero64().lt(b) {
                    self.ewma.minus(b).over(b)
                } else {
                    zero64()
                },
            ),
            None => None,
        }
    }

    /// By how much of the baseline the average exceeds it, once there is a baseline.
    #[verifier::when_used_as_spec(spec_degradation_ratio)]
    pub fn degradation_ratio(&self) -> (r: Option<F64>)
        ensures
            r == self.degradation_ratio(),
    {
        match self.baseline {
            Some(b) => {
                let zero: F64 = F64 { bits: 0 };
                if zero.lt(b) {
                    Some(self.ewma.minus(b).over(b))
                } else {
                    Some(zero)
                }
            },
            None => None,
        }
    }
}

/// A trigger with two thresholds: above the one it is set off, below the other it is cleared,
/// and in between it stays as it is.
pub open spec fn spec_hysteresis(on: bool, value: F64, enter: F64, exit: F64) -> bool {
    if on {
        !value.lt(exit)
    } else {
        enter.lt(value)
    }
}

#[verifier::when_used_as_spec(spec_hysteresis)]
pub fn hysteresis(on: bool, value: F64, enter: F64, exit: F64) -> (r: bool)
    ensures
        r == hysteresis(on, value, enter, exit),
{
    if on {
        !value.lt(exit)
    } else {
        enter.lt(value)
    }
}

/// The triggers, with what they are decided by.
#[derive(Debug, Clone, Copy)]
pub struct TriggerEngine {
    pub config: TriggerConfig,
    pub tbt: TbtTracker,
    pub trigger: TriggerState,
}

impl TriggerEngine {
    pub open spec fn spec_new(config: TriggerConfig) -> TriggerEngine {
        TriggerEngine {
            tbt: TbtTracker::new(config.tbt_warmup_tokens),
            config,
            trigger: TriggerState { tbt_degraded: false, mem_low: false, temp_high: false },
        }
    }

    #[verifier::when_used_as_spec(spec_new)]
    pub fn new(config: TriggerConfig) -> (r: Self)
        ensures
            r == TriggerEngine::new(config),
    {
        TriggerEngine {
            tbt: TbtTracker::new(config.tbt_warmup_tokens),
            config,
            trigger: TriggerState::default(),
        }
    }

    /// The engine after a heartbeat's time between tokens. What is not a positive finite number
    /// is no observation.
    pub open spec fn with_tbt_ms(self, tbt_ms: F64) -> TriggerEngine {
        if !tbt_ms.is_finite() || zero64().at_least(tbt_ms) {
            self
        } else {
            let tbt = self.tbt.observed(tbt_ms);
            TriggerEngine {
                tbt,
                trigger: TriggerState {
                    tbt_degraded: match tbt.degradation_ratio() {
                        Some(ratio) => hysteresis(
                            self.trigger.tbt_degraded,
                            ratio,
                            self.config.tbt_enter,
                            self.config.tbt_exit,
                        ),
                        None => self.trigger.tbt_degraded,
                    },
                    ..self.trigger
                },
                ..self
            }
        }
    }

    pub fn update_tbt_ms(&mut self, tbt_ms: F64)
        ensures
            *final(self) == old(self).with_tbt_ms(tbt_ms),
    {
        let zero: F64 = F64 { bits: 0 };
        if !tbt_ms.is_finite() || zero.at_least(tbt_ms) {
            return;
        }
        self.tbt.observe(tbt_ms);
        if let Some(ratio) = self.tbt.degradation_ratio() {
            self.trigger.tbt_degraded =
            hysteresis(
                self.trigger.tbt_degraded,
                ratio,
                self.config.tbt_enter,
                self.config.tbt_exit,
            );
        }
    }

    pub open spec fn with_mem(self, pressure: F64) -> TriggerEngine {
        TriggerEngine {
            trigger: TriggerState {
                mem_low: hysteresis(
                    self.trigger.mem_low,
                    pressure,
                    self.config.mem_enter,
                    self.config.mem_exit,
                ),
                ..self.trigger
            },
            ..self
        }
    }

    pub fn update_mem(&mut self, pressure: F64)
        ensures
            *final(self) == old(self).with_mem(pressure),
    {
        self.trigger.mem_low =
        hysteresis(
            self.trigger.mem_low,
            pressure,
            self.config.mem_enter,
            self.config.mem_exit,
        );
    }

    pub open spec fn with_temp(self, normalized: F64) -> TriggerEngine {
        TriggerEngine {
            trigger: TriggerState {
                temp_high: hysteresis(
                    self.trigger.temp_high,
                    normalized,
                    self.config.temp_enter,
                    self.config.temp_exit,
                ),
                ..self.trigger
            },
            ..self
        }
    }

    pub fn update_temp(&mut self, normalized: F64)
        ensures
            *final(self) == old(self).with_temp(normalized),
    {
        self.trigger.temp_high =
        hysteresis(
            self.trigger.temp_high,
            normalized,
            self.config.temp_enter,
            self.config.temp_exit,
        );
    }

    pub fn state(&self) -> (r: &TriggerState)
        ensures
            *r == self.trigger,
    {
        &self.trigger
    }

    pub fn tbt_degradation_ratio(&self) -> (r: Option<F64>)
        ensures
            r == self.tbt.degradation_ratio(),
    {
        self.tbt.degradation_ratio()
    }
}

/// A reading that is neither below the exit threshold nor above the enter threshold changes
/// nothing, whichever way the trigger stands.
pub proof fn law_between_thresholds_nothing_changes(on: bool, value: F64, enter: F64, exit: F64)
    requires
        !value.lt(exit),
        !enter.lt(value),
    ensures
        hysteresis(on, value, enter, exit) == on,
{
}

/// Where the exit threshold is not above the enter threshold, a reading that repeats changes
/// nothing more: a trigger does not flap.
pub proof fn law_a_repeated_reading_settles(on: bool, value: F64, enter: F64, exit: F64)
    requires
        enter.at_least(exit),
    ensures
        ({
            let once = hysteresis(on, value, enter, exit);
            hysteresis(once, value, enter, exit) == once
        }),
{
}

/// A number from zero to one.
pub open spec fn is_share(x: F32) -> bool {
    !x.is_nan() && x.at_least(zero32()) && one32().at_least(x)
}

/// What leaves the clamps of the pressure is a number from zero to one where a number went in.
proof fn lemma_clamped_is_share(x: F32)
    ensures
        !x.is_nan() ==> is_share(x.clamped(zero32(), one32())),
{
}

/// The pressure on the four normalized axes is a number from zero to one: memory always, GPU and
/// CPU where numbers were read, and thermal where its two temperatures are finite.
pub proof fn law_pressure_is_normalized(
    s: SignalState,
    temp_safe_c: F32,
    temp_critical_c: F32,
    latency_ratio: Option<F64>,
)
    ensures
        ({
            let p = s.pressure_with_thermal(temp_safe_c, temp_critical_c, latency_ratio);
            &&& is_share(p.memory)
            &&& !s.gpu_pct.is_nan() ==> is_share(p.gpu)
            &&& !s.cpu_pct.is_nan() ==> is_share(p.cpu)
            &&& temp_safe_c.is_finite() && temp_critical_c.is_finite() ==> is_share(p.thermal)
        }),
{
    law_memory_pressure_is_a_number(s, temp_safe_c, temp_critical_c, latency_ratio);
    lemma_share_of_hundred(s.gpu_pct);
    lemma_share_of_hundred(s.cpu_pct);
    if temp_safe_c.is_finite() && temp_critical_c.is_finite() {
        lemma_heat(s, temp_safe_c, temp_critical_c);
    }
}

proof fn lemma_share_of_hundred(pct: F64)
    ensures
        !pct.is_nan() ==> is_share(share_of_hundred(pct)),
{
    let hundred = F32 { bits: 0x42c8_0000 };
    let x = pct.narrow();
    if !pct.is_nan() {
        law_narrowed_is_a_number(pct);
        if x.is_finite() {
            law_numbers_stay_numbers(x, hundred);
        }
        assert(!x.over(hundred).is_nan());
        lemma_clamped_is_share(x.over(hundred));
    }
}

/// Where the temperature lies before it is cut.
spec fn raw_heat(s: SignalState, temp_safe_c: F32, temp_critical_c: F32) -> F32 {
    let temp_c = F32::from_signed(s.temp_mc).over(F32 { bits: 0x447a_0000 });
    temp_c.minus(temp_safe_c).over(temp_critical_c.minus(temp_safe_c))
}

proof fn lemma_heat(s: SignalState, temp_safe_c: F32, temp_critical_c: F32)
    requires
        temp_safe_c.is_finite(),
        temp_critical_c.is_finite(),
    ensures
        zero32().lt(temp_critical_c.minus(temp_safe_c)) ==> !raw_heat(
            s,
            temp_safe_c,
            temp_critical_c,
        ).is_nan(),
        is_share(s.heat(temp_safe_c, temp_critical_c)),
{
    let temp_c = F32::from_signed(s.temp_mc).over(F32 { bits: 0x447a_0000 });
    let range = temp_critical_c.minus(temp_safe_c);
    lemma_thousandth(s.temp_mc);
    lemma_small_minus_is_finite(temp_c, temp_safe_c);
    law_numbers_stay_numbers(temp_critical_c, temp_safe_c);
    law_numbers_stay_numbers(temp_c.minus(temp_safe_c), range);
    lemma_clamped_is_share(raw_heat(s, temp_safe_c, temp_critical_c));
}

/// Pressure follows what is read: at a higher temperature the thermal pressure is no less, with
/// more memory available the memory pressure is no more, and throttling makes no difference.
pub proof fn law_pressure_follows_readings(
    s: SignalState,
    warmer_mc: i32,
    more_available: u64,
    throttling: bool,
    temp_safe_c: F32,
    temp_critical_c: F32,
    latency_ratio: Option<F64>,
)
    requires
        temp_safe_c.is_finite(),
        temp_critical_c.is_finite(),
        s.temp_mc <= warmer_mc,
        s.mem_available <= more_available,
    ensures
        ({
            let p = s.pressure_with_thermal(temp_safe_c, temp_critical_c, latency_ratio);
            let warmer = (SignalState { temp_mc: warmer_mc, ..s }).pressure_with_thermal(
                temp_safe_c,
                temp_critical_c,
                latency_ratio,
            );
            let freer = (SignalState { mem_available: more_available, ..s }).pressure_with_thermal(
                temp_safe_c,
                temp_critical_c,
                latency_ratio,
            );
            &&& warmer.thermal.at_least(p.thermal)
            &&& p.memory.at_least(freer.memory)
            &&& (SignalState { throttling, ..s }).pressure_with_thermal(
                temp_safe_c,
                temp_critical_c,
                latency_ratio,
            ) == p
        }),
{
    lemma_heat_follows(s, warmer_mc, temp_safe_c, temp_critical_c);
    lemma_memory_follows(s, more_available);
}

proof fn lemma_heat_follows(
    s: SignalState,
    warmer_mc: i32,
    temp_safe_c: F32,
    temp_critical_c: F32,
)
    requires
        temp_safe_c.is_finite(),
        temp_critical_c.is_finite(),
        s.temp_mc <= warmer_mc,
    ensures
        (SignalState { temp_mc: warmer_mc, ..s }).heat(temp_safe_c, temp_critical_c).at_least(
            s.heat(temp_safe_c, temp_critical_c),
        ),
{
    let thousand = F32 { bits: 0x447a_0000 };
    let t1 = F32::from_signed(s.temp_mc).over(thousand);
    let t2 = F32::from_signed(warmer_mc).over(thousand);
    let range = temp_critical_c.minus(temp_safe_c);
    law_from_signed_follows(s.temp_mc, warmer_mc);
    law_over_follows_its_first(
        F32::from_signed(s.temp_mc),
        F32::from_signed(warmer_mc),
        thousand,
    );
    lemma_thousandth(s.temp_mc);
    lemma_thousandth(warmer_mc);
    lemma_small_minus_is_finite(t1, temp_safe_c);
    lemma_small_minus_is_finite(t2, temp_safe_c);
    law_minus_follows_its_first(t1, t2, temp_safe_c);
    if zero32().lt(range) {
        let d1 = t1.minus(temp_safe_c);
        let d2 = t2.minus(temp_safe_c);
        law_over_follows_its_first(d1, d2, range);
        law_clamped_follows(d1.over(range), d2.over(range), zero32(), one32());
    }
}

proof fn lemma_memory_follows(s: SignalState, more_available: u64)
    requires
        s.mem_available <= more_available,
    ensures
        s.memory_taken().clamped(zero32(), one32()).at_least(
            (SignalState { mem_available: more_available, ..s }).memory_taken().clamped(
                zero32(),
                one32(),
            ),
        ),
{
    if s.mem_total > 0 {
        let total = F32::from_whole(s.mem_total);
        let a1 = F32::from_whole(s.mem_available);
        let a2 = F32::from_whole(more_available);
        law_whole_is_finite(s.mem_total);
        law_whole_is_finite(s.mem_available);
        law_whole_is_finite(more_available);
        law_from_whole_follows(s.mem_available, more_available);
        law_over_follows_its_first(a1, a2, total);
        law_minus_falls_with_its_second(one32(), a1.over(total), a2.over(total));
        law_clamped_follows(
            one32().minus(a2.over(total)),
            one32().minus(a1.over(total)),
            zero32(),
            one32(),
        );
    }
}

/// Without a range between its two temperatures there is no thermal pressure, and without a total
/// there is no memory pressure.
pub proof fn law_no_range_no_pressure(
    s: SignalState,
    temp_safe_c: F32,
    temp_critical_c: F32,
    latency_ratio: Option<F64>,
)
    ensures
        ({
            let p = s.pressure_with_thermal(temp_safe_c, temp_critical_c, latency_ratio);
            &&& temp_safe_c.is_finite() && temp_safe_c.at_least(temp_critical_c) ==> p.thermal
                == zero32()
            &&& s.mem_total == 0 ==> p.memory == zero32()
        }),
{
    if temp_safe_c.is_finite() && temp_safe_c.at_least(temp_critical_c) {
        law_minus_of_no_more_is_not_positive(temp_critical_c, temp_safe_c);
    }
}

/// Memory pressure is always a number, whatever was read.
pub proof fn law_memory_pressure_is_a_number(
    s: SignalState,
    temp_safe_c: F32,
    temp_critical_c: F32,
    latency_ratio: Option<F64>,
)
    ensures
        !s.pressure_with_thermal(temp_safe_c, temp_critical_c, latency_ratio).memory.is_nan(),
{
    law_whole_is_finite(s.mem_available);
    law_whole_is_finite(s.mem_total);
    let available = F32::from_whole(s.mem_available);
    let total = F32::from_whole(s.mem_total);
    law_numbers_stay_numbers(available, total);
    if s.mem_total > 0 {
        law_numbers_stay_numbers(one32(), available.over(total));
    }
}

/// Once there is a baseline, no later time moves it.
pub proof fn law_baseline_stays(t: TbtTracker, tbt_ms: F64)
    requires
        t.baseline is Some,
    ensures
        t.observed(tbt_ms).baseline == t.baseline,
{
}

/// A tracker after a row of times.
pub open spec fn observed_all(t: TbtTracker, times: Seq<F64>) -> TbtTracker
    decreases times.len(),
{
    if times.len() == 0 {
        t
    } else {
        observed_all(t, times.drop_last()).observed(times.last())
    }
}

/// The smoothed time of a row: the first time, and then each later one counts for an eighth.
pub open spec fn smoothed(times: Seq<F64>) -> F64
    decreases times.len(),
{
    if times.len() <= 1 {
        times[0]
    } else {
        (F64 { bits: 0x3fec_0000_0000_0000 }).times(smoothed(times.drop_last())).plus(
            (F64 { bits: 0x3fc0_0000_0000_0000 }).times(times.last()),
        )
    }
}

/// How many times the warmup takes: as many as the target asks for, and at least one.
pub open spec fn warmup_length(warmup_target: u32) -> int {
    if warmup_target == 0 {
        1
    } else {
        warmup_target as int
    }
}

/// The average is the smoothed time of all that was observed. The baseline is there as soon as the
/// warmup is over and not before, and it is the smoothed time of the warmup for good.
pub proof fn law_baseline_after_warmup(warmup_target: u32, times: Seq<F64>)
    requires
        times.len() <= u32::MAX,
    ensures
        ({
            let t = observed_all(TbtTracker::new(warmup_target), times);
            &&& t.warmup_count == times.len()
            &&& t.warmup_target == warmup_target
            &&& times.len() >= 1 ==> t.ewma == smoothed(times)
            &&& t.baseline == if times.len() >= warmup_length(warmup_target) {
                Some(smoothed(times.take(warmup_length(warmup_target))))
            } else {
                None
            }
        }),
    decreases times.len(),
{
    if times.len() > 0 {
        let before = times.drop_last();
        let n = warmup_length(warmup_target);
        law_baseline_after_warmup(warmup_target, before);
        if before.len() >= n {
            assert(before.take(n) =~= times.take(n));
        } else if times.len() == n {
            assert(times.take(n) =~= times);
        }
    }
}

} // verus!
