//! What sets a trigger off, what clears it, and what it is decided by.

use crate::float::meaning::{
    law_minus64, law_over64, law_plus64, law_times64, lemma_constants, lemma_order64,
    lemma_scaled64,
};
use crate::float::order::{law_minus64_follows_its_first, law_over64_follows_its_first};
use crate::float::{lemma_formats, F64};
use crate::policy::common::state::{TbtTracker, TriggerEngine};
use vstd::arithmetic::power2::{lemma_pow2_pos, pow2};
use vstd::prelude::*;

verus! {

/// The degradation is the excess of the average over the baseline, counted in baselines: the
/// difference of the two, divided by the baseline, each as near as a number gets.
pub proof fn law_degradation_is_the_relative_excess(t: TbtTracker, b: F64)
    requires
        t.baseline == Some(b),
        b.is_finite(),
        b.value() > 0,
        t.ewma.is_finite(),
    ensures
        t.degradation_ratio() is Some,
        exists|d: F64| #[trigger]
            d.is(t.ewma.value() - b.value(), 1) && (d.is_finite()
                ==> t.degradation_ratio()->Some_0.is(d.value() * pow2(1074), b.value() as nat)),
{
    let d = t.ewma.minus(b);
    lemma_order64(F64 { bits: 0 }, b);
    law_minus64(t.ewma, b);
    if d.is_finite() {
        law_over64(d, b);
    }
}

/// The degradation is signed: not above zero where the average is below a positive baseline, not
/// below zero where it is above, and zero where they are equal.
pub proof fn law_degradation_is_signed(t: TbtTracker, b: F64)
    requires
        t.baseline == Some(b),
        b.is_finite(),
        b.value() > 0,
        t.ewma.is_finite(),
    ensures
        t.degradation_ratio() is Some,
        !t.degradation_ratio()->Some_0.is_nan(),
        t.ewma.value() <= b.value() ==> t.degradation_ratio()->Some_0.value() <= 0,
        t.ewma.value() >= b.value() ==> t.degradation_ratio()->Some_0.value() >= 0,
{
    let zero = F64 { bits: 0 };
    let d = t.ewma.minus(b);
    let none = b.minus(b);
    lemma_order64(zero, b);
    lemma_order64(t.ewma, b);
    lemma_order64(b, t.ewma);
    lemma_formats();
    if t.ewma.value() <= b.value() {
        law_minus64_follows_its_first(t.ewma, b, b);
        lemma_order64(none, d);
        assert(zero.at_least(d));
        law_over64_follows_its_first(d, d, b);
        lemma_order64(zero, d.over(b));
    }
    if t.ewma.value() >= b.value() {
        law_minus64_follows_its_first(b, t.ewma, b);
        lemma_order64(d, none);
        assert(d.at_least(zero));
        law_over64_follows_its_first(d, d, b);
        lemma_order64(d.over(b), zero);
    }
}

/// With the same baseline, the degradation never falls as the average rises.
pub proof fn law_degradation_follows_the_average(t: TbtTracker, slower: TbtTracker, b: F64)
    requires
        t.baseline == Some(b),
        slower.baseline == Some(b),
        b.is_finite(),
        b.value() > 0,
        t.ewma.is_finite(),
        slower.ewma.is_finite(),
        t.ewma.value() <= slower.ewma.value(),
    ensures
        t.degradation_ratio() is Some,
        slower.degradation_ratio() is Some,
        slower.degradation_ratio()->Some_0.value() >= t.degradation_ratio()->Some_0.value(),
{
    let d1 = t.ewma.minus(b);
    let d2 = slower.ewma.minus(b);
    lemma_order64(F64 { bits: 0 }, b);
    lemma_order64(slower.ewma, t.ewma);
    law_minus64_follows_its_first(t.ewma, slower.ewma, b);
    law_over64_follows_its_first(d1, d2, b);
    lemma_order64(d2.over(b), d1.over(b));
}

/// Without a baseline nothing is known, and against one that is not above zero nothing is degraded.
pub proof fn law_no_baseline_no_degradation(t: TbtTracker)
    ensures
        t.baseline is None <==> t.degradation_ratio() is None,
        t.baseline is Some && !t.baseline->Some_0.is_nan() && t.baseline->Some_0.value() <= 0
            ==> t.degradation_ratio()->Some_0.value() == 0,
{
    if let Some(b) = t.baseline {
        if !b.is_nan() {
            lemma_order64(F64 { bits: 0 }, b);
        }
    }
}

/// A time that is not a positive finite number is no observation: it changes nothing at all.
pub proof fn law_bad_times_are_ignored(e: TriggerEngine, tbt_ms: F64)
    requires
        tbt_ms.is_finite() ==> tbt_ms.value() <= 0,
    ensures
        e.with_tbt_ms(tbt_ms) == e,
{
    if tbt_ms.is_finite() {
        lemma_order64(F64 { bits: 0 }, tbt_ms);
    }
}

/// A good time is observed, and then the degradation alone decides its trigger: above the enter
/// threshold it is set off, below the exit threshold it is cleared, and else it stays. The other
/// triggers and the thresholds stay as they are.
pub proof fn law_degradation_decides_its_trigger(e: TriggerEngine, tbt_ms: F64)
    requires
        tbt_ms.is_finite(),
        tbt_ms.value() > 0,
    ensures
        ({
            let after = e.with_tbt_ms(tbt_ms);
            let on = e.trigger.tbt_degraded;
            &&& after.tbt == e.tbt.observed(tbt_ms)
            &&& after.trigger.mem_low == e.trigger.mem_low
            &&& after.trigger.temp_high == e.trigger.temp_high
            &&& after.config == e.config
            &&& match after.tbt.degradation_ratio() {
                Some(ratio) => {
                    &&& !on && e.config.tbt_enter.lt(ratio) ==> after.trigger.tbt_degraded
                    &&& !on && !e.config.tbt_enter.lt(ratio) ==> !after.trigger.tbt_degraded
                    &&& on && ratio.lt(e.config.tbt_exit) ==> !after.trigger.tbt_degraded
                    &&& on && !ratio.lt(e.config.tbt_exit) ==> after.trigger.tbt_degraded
                },
                None => after.trigger.tbt_degraded == on,
            }
        }),
{
    lemma_order64(F64 { bits: 0 }, tbt_ms);
}

/// An engine that is no slower than its baseline is not reported as degraded, where the enter
/// threshold is not below zero.
pub proof fn law_faster_is_not_degraded(e: TriggerEngine, tbt_ms: F64, b: F64)
    requires
        !e.trigger.tbt_degraded,
        !e.config.tbt_enter.is_nan(),
        e.config.tbt_enter.value() >= 0,
        e.with_tbt_ms(tbt_ms).tbt.baseline == Some(b),
        b.is_finite(),
        b.value() > 0,
        e.with_tbt_ms(tbt_ms).tbt.ewma.is_finite(),
        e.with_tbt_ms(tbt_ms).tbt.ewma.value() <= b.value(),
    ensures
        !e.with_tbt_ms(tbt_ms).trigger.tbt_degraded,
{
    let after = e.with_tbt_ms(tbt_ms);
    law_degradation_is_signed(after.tbt, b);
    let ratio = after.tbt.degradation_ratio()->Some_0;
    lemma_order64(e.config.tbt_enter, ratio);
    if tbt_ms.is_finite() && tbt_ms.value() > 0 {
        law_degradation_decides_its_trigger(e, tbt_ms);
    } else {
        law_bad_times_are_ignored(e, tbt_ms);
    }
}

/// The first time is the average. Each later one moves it by an eighth: seven eighths of the
/// average and an eighth of the time, added up, each as near as a number gets.
pub proof fn law_average_moves_by_an_eighth(t: TbtTracker, tbt_ms: F64)
    requires
        t.ewma.is_finite(),
        tbt_ms.is_finite(),
    ensures
        t.warmup_count == 0 ==> t.observed(tbt_ms).ewma == tbt_ms,
        t.warmup_count > 0 ==> exists|old_part: F64, new_part: F64|
            #![trigger old_part.is(7 * t.ewma.value(), 8), new_part.is(tbt_ms.value(), 8)]
            old_part.is(7 * t.ewma.value(), 8) && new_part.is(tbt_ms.value(), 8) && (
            old_part.is_finite() && new_part.is_finite() ==> t.observed(tbt_ms).ewma.is(
                old_part.value() + new_part.value(),
                1,
            )),
        t.warmup_count < u32::MAX ==> t.observed(tbt_ms).warmup_count == t.warmup_count + 1,
        t.observed(tbt_ms).warmup_target == t.warmup_target,
{
    let seven = F64 { bits: 0x3fec_0000_0000_0000 };
    let one = F64 { bits: 0x3fc0_0000_0000_0000 };
    lemma_constants();
    lemma_formats();
    lemma_eighths_of(t.ewma, seven, 7);
    lemma_eighths_of(tbt_ms, one, 1);
    let p = seven.times(t.ewma);
    let q = one.times(tbt_ms);
    if p.is_finite() && q.is_finite() {
        law_plus64(p, q);
    }
    if t.warmup_count > 0 {
        assert(p.is(7 * t.ewma.value(), 8) && q.is(tbt_ms.value(), 8));
    }
}

proof fn lemma_eighths_of(x: F64, c: F64, n: int)
    requires
        x.is_finite(),
        c.is_finite(),
        8 * c.value() == n * pow2(1074),
    ensures
        c.times(x).is(n * x.value(), 8),
{
    let w = pow2(1074);
    let v = x.value();
    let p = c.times(x);
    lemma_pow2_pos(1074);
    law_times64(c, x);
    lemma_scaled64(p, c.value() * v, w, 8);
    assert((c.value() * v) * 8 == (n * v) * w) by (nonlinear_arith)
        requires
            8 * c.value() == n * w,
    ;
    lemma_scaled64(p, n * v, 8, w);
    assert(w * 8 == 8 * w);
}

/// The baseline is the average at the end of the warmup: there is none before as many times as were
/// asked for, it is taken once, and no later time moves it.
pub proof fn law_baseline_is_taken_once(t: TbtTracker, tbt_ms: F64)
    ensures
        t.baseline is Some ==> t.observed(tbt_ms).baseline == t.baseline,
        t.baseline is None && t.warmup_count < u32::MAX && t.warmup_count + 1 >= t.warmup_target
            ==> t.observed(tbt_ms).baseline == Some(t.observed(tbt_ms).ewma),
        t.baseline is None && t.warmup_count + 1 < t.warmup_target
            ==> t.observed(tbt_ms).baseline is None,
        t.warmup_count == u32::MAX ==> t.observed(tbt_ms).warmup_count == 0,
{
}

/// The tracker after a row of times.
pub open spec fn after_times(t: TbtTracker, times: Seq<F64>) -> TbtTracker
    decreases times.len(),
{
    if times.len() == 0 {
        t
    } else {
        after_times(t, times.drop_last()).observed(times.last())
    }
}

/// From the start, there is a baseline exactly once as many times were observed as the warmup asks
/// for, and at least one.
pub proof fn law_warmup_takes_its_time(warmup_target: u32, times: Seq<F64>)
    requires
        times.len() < u32::MAX,
    ensures
        ({
            let t = after_times(TbtTracker::new(warmup_target), times);
            &&& t.warmup_count == times.len()
            &&& t.warmup_target == warmup_target
            &&& t.baseline is Some <==> times.len() > 0 && times.len() >= warmup_target
        }),
    decreases times.len(),
{
    if times.len() > 0 {
        law_warmup_takes_its_time(warmup_target, times.drop_last());
    }
}

/// Memory sets off its own trigger by its own two thresholds, and nothing else.
pub proof fn law_memory_decides_its_trigger(e: TriggerEngine, pressure: F64)
    ensures
        ({
            let after = e.with_mem(pressure);
            let on = e.trigger.mem_low;
            &&& !on && e.config.mem_enter.lt(pressure) ==> after.trigger.mem_low
            &&& !on && !e.config.mem_enter.lt(pressure) ==> !after.trigger.mem_low
            &&& on && pressure.lt(e.config.mem_exit) ==> !after.trigger.mem_low
            &&& on && !pressure.lt(e.config.mem_exit) ==> after.trigger.mem_low
            &&& after.trigger.temp_high == e.trigger.temp_high
            &&& after.trigger.tbt_degraded == e.trigger.tbt_degraded
            &&& after.tbt == e.tbt
            &&& after.config == e.config
        }),
{
}

/// Temperature sets off its own trigger by its own two thresholds, and nothing else.
pub proof fn law_temperature_decides_its_trigger(e: TriggerEngine, normalized: F64)
    ensures
        ({
            let after = e.with_temp(normalized);
            let on = e.trigger.temp_high;
            &&& !on && e.config.temp_enter.lt(normalized) ==> after.trigger.temp_high
            &&& !on && !e.config.temp_enter.lt(normalized) ==> !after.trigger.temp_high
            &&& on && normalized.lt(e.config.temp_exit) ==> !after.trigger.temp_high
            &&& on && !normalized.lt(e.config.temp_exit) ==> after.trigger.temp_high
            &&& after.trigger.mem_low == e.trigger.mem_low
            &&& after.trigger.tbt_degraded == e.trigger.tbt_degraded
            &&& after.tbt == e.tbt
            &&& after.config == e.config
        }),
{
}

/// A policy starts with no trigger set off, nothing observed, and the warmup that is configured.
pub proof fn law_engine_starts_clear(config: crate::config::TriggerConfig)
    ensures
        ({
            let e = TriggerEngine::new(config);
            &&& !e.trigger.mem_low && !e.trigger.temp_high && !e.trigger.tbt_degraded
            &&& e.tbt.baseline is None
            &&& e.tbt.warmup_count == 0
            &&& e.tbt.warmup_target == config.tbt_warmup_tokens
            &&& e.config == config
        }),
{
}

} // verus!
