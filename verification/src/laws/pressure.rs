//! The pressure that readings stand for, in exact terms.

use crate::float::meaning::{
    law_from_signed32, law_from_whole32, law_from_whole64, law_narrow, law_over32, lemma_constants,
    lemma_exact32, lemma_order32, lemma_order64, lemma_scaled32,
};
use crate::float::order::{
    law_from_whole_follows, law_minus64_falls_with_its_second, law_minus_falls_with_its_second,
    law_minus_follows_its_first, law_over64_follows_its_first, lemma_small_minus_is_finite,
    lemma_thousandth,
};
use crate::float::shares::{
    law_cut_to_a_share, law_difference_keeps_its_side, law_quotient64_keeps_its_side,
    law_quotient_keeps_its_side, law_rest_of_one64,
};
use crate::float::{law_narrowed_is_a_number, law_whole_is_finite, lemma_formats, F32, F64};
use crate::laws::triggers::law_memory_decides_its_trigger;
use crate::lua_policy::LuaPolicy;
use crate::policy::common::state::{share_of_hundred, Pressure6D, SignalState};
use crate::signal::SystemSignal;
use vstd::arithmetic::power2::{lemma_pow2_adds, lemma_pow2_pos, pow2};
use vstd::prelude::*;

verus! {

proof fn lemma_narrowed_hundred()
    ensures
        (F64 { bits: 0x4059_0000_0000_0000 }).narrow().is_finite(),
        (F64 { bits: 0x4059_0000_0000_0000 }).narrow().value() == 100 * pow2(149),
        (F64 { bits: 0 }).narrow().is_finite(),
        (F64 { bits: 0 }).narrow().value() == 0,
{
    let hundred = F64 { bits: 0x4059_0000_0000_0000 };
    let zero = F64 { bits: 0 };
    let d = pow2(925);
    lemma_formats();
    lemma_constants();
    lemma_pow2_pos(925);
    lemma_pow2_adds(925, 149);
    law_narrow(hundred);
    law_narrow(zero);
    assert(100 * pow2(1074) == (100 * pow2(149)) * d) by (nonlinear_arith)
        requires
            pow2(1074) == d * pow2(149),
    ;
    lemma_exact32(hundred.narrow(), F32 { bits: 0x42c8_0000 }, (100 * pow2(1074)) as int, d);
    assert(0 * d == 0);
    lemma_exact32(zero.narrow(), F32 { bits: 0 }, 0, d);
}

/// A greater number is not narrowed to a smaller one.
pub proof fn law_narrow_follows(x: F64, y: F64)
    requires
        x.is_finite(),
        y.is_finite(),
        x.value() <= y.value(),
    ensures
        !x.narrow().is_nan(),
        !y.narrow().is_nan(),
        x.narrow().value() <= y.narrow().value(),
{
    let f = crate::float::binary32();
    let d = pow2(925);
    lemma_formats();
    lemma_pow2_pos(925);
    law_narrowed_is_a_number(x);
    law_narrowed_is_a_number(y);
    law_narrow(x);
    law_narrow(y);
    crate::float::meaning::lemma_is32(x.narrow(), x.value(), d);
    crate::float::meaning::lemma_is32(y.narrow(), y.value(), d);
    lemma_nearest_rank(x.narrow(), x.value(), d);
    lemma_nearest_rank(y.narrow(), y.value(), d);
    crate::float::signed::lemma_rounded_rank(f, x.value(), y.value(), d);
    lemma_order32(y.narrow(), x.narrow());
}

proof fn lemma_nearest_rank(x: F32, num: int, den: nat)
    requires
        x.is(num, den),
        den > 0,
    ensures
        x.signed().rank() == crate::float::signed::rounded_rank(crate::float::binary32(), num, den),
{
    let f = crate::float::binary32();
    let n = (if num >= 0 {
        num
    } else {
        -num
    }) as nat;
    lemma_formats();
    crate::float::meaning::lemma_is32(x, num, den);
    crate::float::model::lemma_round_is(f, n, den, x.signed().key as nat);
    crate::float::signed::lemma_rounded_rank(f, num, num, den);
}

proof fn lemma_narrow_past_the_numbers(x: F64)
    requires
        !x.is_finite(),
    ensures
        x.is_nan() <==> x.narrow().is_nan(),
        !x.narrow().is_finite(),
        !x.is_nan() ==> (x.value() > 0 <==> x.narrow().value() > 0),
        !x.is_nan() ==> (x.value() < 0 <==> x.narrow().value() < 0),
{
    lemma_formats();
    if !x.is_nan() {
        let y = x.narrow();
        assert(y.signed().negative == x.signed().negative);
        assert(!y.is_nan());
        lemma_order64(F64 { bits: 0 }, x);
        lemma_order64(x, F64 { bits: 0 });
        lemma_order32(F32 { bits: 0 }, y);
        lemma_order32(y, F32 { bits: 0 });
    }
}

/// Usage that is past the numbers is full pressure above and none below, and what is not a number
/// stays so.
pub proof fn law_usage_past_the_numbers(pct: F64)
    requires
        !pct.is_finite(),
    ensures
        pct.is_nan() <==> share_of_hundred(pct).is_nan(),
        !pct.is_nan() && pct.value() > 0 ==> share_of_hundred(pct).value() == pow2(149),
        !pct.is_nan() && pct.value() < 0 ==> share_of_hundred(pct).value() == 0,
{
    let h = pct.narrow();
    lemma_narrow_past_the_numbers(pct);
    lemma_formats();
    if pct.is_nan() {
        assert(h.over(F32 { bits: 0x42c8_0000 }).is_nan());
    } else {
        lemma_infinite_hundredth(h);
    }
}

/// Usage from 0 to 100 percent is its hundredth as a pressure, as near as numbers get; usage below
/// is no pressure, and usage above is full pressure.
pub proof fn law_usage_is_its_hundredth(pct: F64)
    requires
        pct.is_finite(),
    ensures
        0 <= pct.value() <= 100 * pow2(1074) ==> exists|h: F32| #[trigger]
            h.is(pct.value(), pow2(925)) && share_of_hundred(pct).is(h.value(), 100),
        pct.value() <= 0 ==> share_of_hundred(pct).value() == 0,
        pct.value() >= 100 * pow2(1074) ==> share_of_hundred(pct).value() == pow2(149),
{
    let h = pct.narrow();
    let zero = F64 { bits: 0 };
    let hundred = F64 { bits: 0x4059_0000_0000_0000 };
    lemma_formats();
    lemma_constants();
    lemma_narrowed_hundred();
    law_narrow(pct);
    law_narrowed_is_a_number(pct);
    if pct.value() <= 0 {
        law_narrow_follows(pct, zero);
    }
    if pct.value() >= 0 {
        law_narrow_follows(zero, pct);
    }
    if pct.value() <= 100 * pow2(1074) {
        law_narrow_follows(pct, hundred);
    }
    if pct.value() >= 100 * pow2(1074) {
        law_narrow_follows(hundred, pct);
    }
    if h.is_finite() {
        lemma_hundredth(h);
    } else {
        lemma_infinite_hundredth(h);
    }
}

/// After a compute signal with usage from 0 to 100 percent, the pressure on the processor is the
/// hundredth of the processor's usage and that on the GPU the hundredth of the GPU's, as near as
/// numbers get.
pub proof fn law_usage_is_the_pressure_of_its_axis(
    p: LuaPolicy,
    signal: SystemSignal,
    cpu: F64,
    gpu: F64,
)
    requires
        signal is ComputeGuidance,
        signal->cpu_usage_pct == cpu,
        signal->gpu_usage_pct == gpu,
        cpu.is_finite(),
        gpu.is_finite(),
        0 <= cpu.value() <= 100 * pow2(1074),
        0 <= gpu.value() <= 100 * pow2(1074),
    ensures
        exists|c: F32| #[trigger]
            c.is(cpu.value(), pow2(925)) && p.with_reading(signal).pressure().cpu.is(
                c.value(),
                100,
            ),
        exists|g: F32| #[trigger]
            g.is(gpu.value(), pow2(925)) && p.with_reading(signal).pressure().gpu.is(
                g.value(),
                100,
            ),
{
    law_usage_is_its_hundredth(cpu);
    law_usage_is_its_hundredth(gpu);
}

proof fn lemma_hundredth(h: F32)
    requires
        h.is_finite(),
    ensures
        ({
            let r = h.over(F32 { bits: 0x42c8_0000 }).clamped(
                F32 { bits: 0 },
                F32 { bits: 0x3f80_0000 },
            );
            &&& 0 <= h.value() <= 100 * pow2(149) ==> r.is(h.value(), 100)
            &&& h.value() <= 0 ==> r.value() == 0
            &&& h.value() >= 100 * pow2(149) ==> r.value() == pow2(149)
        }),
{
    let hundred = F32 { bits: 0x42c8_0000 };
    let q = h.over(hundred);
    lemma_constants();
    lemma_pow2_pos(149);
    law_quotient_keeps_its_side(h, hundred);
    law_cut_to_a_share(q);
    lemma_scaled32(q, h.value(), 100, pow2(149));
}

proof fn lemma_infinite_hundredth(h: F32)
    requires
        !h.is_finite(),
        !h.is_nan(),
    ensures
        ({
            let r = h.over(F32 { bits: 0x42c8_0000 }).clamped(
                F32 { bits: 0 },
                F32 { bits: 0x3f80_0000 },
            );
            &&& h.value() <= 0 ==> r.value() == 0
            &&& h.value() >= 0 ==> r.value() == pow2(149)
            &&& !(0 <= h.value() <= 100 * pow2(149))
        }),
{
    let hundred = F32 { bits: 0x42c8_0000 };
    let q = h.over(hundred);
    lemma_formats();
    lemma_constants();
    lemma_order32(h, F32 { bits: 0 });
    lemma_order32(F32 { bits: 0 }, h);
    lemma_order32(hundred, h);
    assert(!q.is_nan());
    lemma_order32(q, F32 { bits: 0 });
    lemma_order32(F32 { bits: 0x3f80_0000 }, q);
}

/// Memory pressure is the share that is taken: full where nothing is available, none where all is
/// or more, and in between one less the available share, each as near as numbers get.
pub proof fn law_memory_pressure_is_the_taken_share(
    s: SignalState,
    safe: F32,
    critical: F32,
    latency: Option<F64>,
)
    requires
        s.mem_total > 0,
    ensures
        ({
            let memory = s.pressure_with_thermal(safe, critical, latency).memory;
            &&& s.mem_available == 0 ==> memory.value() == pow2(149)
            &&& s.mem_available >= s.mem_total ==> memory.value() == 0
            &&& exists|a: F32, t: F32, q: F32|
                #![trigger a.is(s.mem_available * pow2(149), 1), t.is(
                    s.mem_total * pow2(149),
                    1,
                ), q.is(a.value() * pow2(149), t.value() as nat)]
                a.is(s.mem_available * pow2(149), 1) && t.is(s.mem_total * pow2(149), 1)
                    && t.value() > 0 && q.is(a.value() * pow2(149), t.value() as nat) && (
                q.is_finite() && 0 <= q.value() <= pow2(149) ==> memory.is(
                    pow2(149) - q.value(),
                    1,
                ))
        }),
{
    let a = F32::from_whole(s.mem_available);
    let t = F32::from_whole(s.mem_total);
    let q = a.over(t);
    lemma_available_share(s.mem_available, s.mem_total);
    lemma_rest(q);
}

proof fn lemma_available_share(available: u64, total: u64)
    requires
        total > 0,
    ensures
        ({
            let a = F32::from_whole(available);
            let t = F32::from_whole(total);
            let q = a.over(t);
            &&& a.is(available * pow2(149), 1)
            &&& t.is(total * pow2(149), 1)
            &&& t.value() > 0
            &&& !q.is_nan()
            &&& q.is(a.value() * pow2(149), t.value() as nat)
            &&& available == 0 ==> q.is_finite() && q.value() == 0
            &&& available >= total ==> q.value() >= pow2(149)
        }),
{
    let zero = F32 { bits: 0 };
    let a = F32::from_whole(available);
    let t = F32::from_whole(total);
    let q = a.over(t);
    law_from_whole32(available);
    law_from_whole32(total);
    law_whole_is_finite(available);
    law_whole_is_finite(total);
    lemma_formats();
    lemma_order32(zero, t);
    lemma_order32(zero, a);
    lemma_order32(a, zero);
    law_quotient_keeps_its_side(a, t);
    if available >= total {
        law_from_whole_follows(total, available);
        lemma_order32(a, t);
    }
    if available == 0 {
        assert(a.value() == 0);
        assert(0 * pow2(149) == 0 && 0 * t.value() == 0);
        lemma_exact32(q, zero, 0, t.value() as nat);
    }
}

proof fn lemma_rest(q: F32)
    requires
        !q.is_nan(),
    ensures
        ({
            let memory = (F32 { bits: 0x3f80_0000 }).minus(q).clamped(
                F32 { bits: 0 },
                F32 { bits: 0x3f80_0000 },
            );
            &&& q.is_finite() && q.value() == 0 ==> memory.value() == pow2(149)
            &&& q.value() >= pow2(149) ==> memory.value() == 0
            &&& q.is_finite() && 0 <= q.value() <= pow2(149) ==> memory.is(
                pow2(149) - q.value(),
                1,
            )
        }),
{
    let one = F32 { bits: 0x3f80_0000 };
    let d = one.minus(q);
    lemma_constants();
    if q.is_finite() {
        law_difference_keeps_its_side(one, q);
        if 0 <= q.value() {
            lemma_rest_at_most_one(q);
        }
        law_cut_to_a_share(d);
    } else {
        lemma_infinite_rest(q);
    }
}

proof fn lemma_rest_at_most_one(q: F32)
    requires
        q.is_finite(),
        0 <= q.value(),
    ensures
        (F32 { bits: 0x3f80_0000 }).minus(q).value() <= pow2(149),
{
    let one = F32 { bits: 0x3f80_0000 };
    let zero = F32 { bits: 0 };
    lemma_constants();
    lemma_order32(q, zero);
    law_minus_falls_with_its_second(one, zero, q);
    law_difference_keeps_its_side(one, zero);
    law_difference_keeps_its_side(one, q);
    lemma_order32(one.minus(zero), one.minus(q));
}

proof fn lemma_infinite_rest(q: F32)
    requires
        !q.is_nan(),
        !q.is_finite(),
    ensures
        ({
            let memory = (F32 { bits: 0x3f80_0000 }).minus(q).clamped(
                F32 { bits: 0 },
                F32 { bits: 0x3f80_0000 },
            );
            q.value() >= 0 ==> memory.value() == 0
        }),
        q.value() != 0,
{
    let d = (F32 { bits: 0x3f80_0000 }).minus(q);
    lemma_formats();
    lemma_constants();
    lemma_order32(q, F32 { bits: 0 });
    lemma_order32(F32 { bits: 0 }, q);
    assert(!d.is_nan());
    lemma_order32(d, F32 { bits: 0 });
}

/// Where the total is not known there is no memory pressure.
pub proof fn law_unknown_memory_is_no_pressure(
    s: SignalState,
    safe: F32,
    critical: F32,
    latency: Option<F64>,
)
    requires
        s.mem_total == 0,
    ensures
        s.pressure_with_thermal(safe, critical, latency).memory.value() == 0,
{
    lemma_formats();
    lemma_constants();
    lemma_pow2_pos(149);
    law_cut_to_a_share(F32 { bits: 0 });
}

/// Each axis has its own place among the six.
pub proof fn law_axes_in_order(p: Pressure6D)
    ensures
        ({
            let axes = <[F32; 6] as vstd::std_specs::convert::FromSpec<Pressure6D>>::from_spec(p)@;
            &&& axes.len() == 6
            &&& axes[0] == p.gpu
            &&& axes[1] == p.cpu
            &&& axes[2] == p.memory
            &&& axes[3] == p.thermal
            &&& axes[4] == p.latency
            &&& axes[5] == p.main_app
        }),
{
}

/// Latency pressure is the degradation as it is, and none where that is not known; the main
/// application is never under pressure.
pub proof fn law_latency_is_the_degradation(
    s: SignalState,
    safe: F32,
    critical: F32,
    latency: Option<F64>,
)
    ensures
        ({
            let p = s.pressure_with_thermal(safe, critical, latency);
            &&& match latency {
                Some(ratio) => {
                    &&& ratio.is_finite() ==> p.latency.is(ratio.value(), pow2(925))
                    &&& ratio.is_nan() <==> p.latency.is_nan()
                    &&& !ratio.is_nan() && !ratio.is_finite() ==> !p.latency.is_finite() && (
                    p.latency.value() > 0 <==> ratio.value() > 0)
                },
                None => p.latency.value() == 0,
            }
            &&& p.main_app.value() == 0
        }),
{
    lemma_constants();
    if let Some(ratio) = latency {
        if ratio.is_finite() {
            law_narrow(ratio);
            law_narrowed_is_a_number(ratio);
        } else {
            lemma_narrow_past_the_numbers(ratio);
        }
    }
}

/// The temperature in degrees is a thousandth of what was read, as near as numbers get.
pub open spec fn in_degrees(temp_mc: i32, c: F32) -> bool {
    exists|n: F32| #[trigger] n.is(temp_mc * pow2(149), 1) && c.is(n.value(), 1000)
}

proof fn lemma_in_degrees(temp_mc: i32)
    ensures
        in_degrees(temp_mc, F32::from_signed(temp_mc).over(F32 { bits: 0x447a_0000 })),
        F32::from_signed(temp_mc).over(F32 { bits: 0x447a_0000 }).is_finite(),
{
    let n = F32::from_signed(temp_mc);
    let thousand = F32 { bits: 0x447a_0000 };
    lemma_constants();
    lemma_pow2_pos(149);
    lemma_thousandth(temp_mc);
    law_from_signed32(temp_mc);
    law_over32(n, thousand);
    lemma_scaled32(n.over(thousand), n.value(), 1000, pow2(149));
}

/// Thermal pressure is where the temperature lies between the safe and the critical one: nothing
/// at or below the safe one, full at or above the critical one, and in between its distance from
/// the safe one over that of the critical one, each as near as numbers get.
pub proof fn law_heat_is_the_share_of_the_range(
    s: SignalState,
    safe: F32,
    critical: F32,
    latency: Option<F64>,
)
    requires
        safe.is_finite(),
        critical.is_finite(),
    ensures
        exists|c: F32, d: F32, r: F32|
            #![trigger in_degrees(s.temp_mc, c), d.is(c.value() - safe.value(), 1), r.is(
                critical.value() - safe.value(),
                1,
            )]
            {
                let heat = s.pressure_with_thermal(safe, critical, latency).thermal;
                &&& in_degrees(s.temp_mc, c)
                &&& d.is(c.value() - safe.value(), 1)
                &&& r.is(critical.value() - safe.value(), 1)
                &&& c.value() <= safe.value() ==> heat.value() == 0
                &&& critical.value() <= safe.value() ==> heat.value() == 0
                &&& r.is_finite() && 0 < r.value() ==> {
                    &&& c.value() >= critical.value() ==> heat.value() == pow2(149)
                    &&& 0 <= d.value() <= r.value() ==> heat.is(
                        d.value() * pow2(149),
                        r.value() as nat,
                    )
                }
            },
{
    let c = F32::from_signed(s.temp_mc).over(F32 { bits: 0x447a_0000 });
    let d = c.minus(safe);
    let r = critical.minus(safe);
    lemma_in_degrees(s.temp_mc);
    law_difference_keeps_its_side(c, safe);
    law_difference_keeps_its_side(critical, safe);
    lemma_range(critical, safe);
    lemma_cold(s, safe, critical);
    if r.is_finite() && 0 < r.value() {
        lemma_warm(s, safe, critical);
    }
}

proof fn lemma_range(critical: F32, safe: F32)
    requires
        safe.is_finite(),
        critical.is_finite(),
    ensures
        critical.value() <= safe.value() ==> !(F32 { bits: 0 }).lt(critical.minus(safe)),
        (F32 { bits: 0 }).value() == 0,
{
    law_difference_keeps_its_side(critical, safe);
    lemma_formats();
    lemma_order32(F32 { bits: 0 }, critical.minus(safe));
}

proof fn lemma_finite_distance(temp_mc: i32, safe: F32)
    requires
        safe.is_finite(),
    ensures
        F32::from_signed(temp_mc).over(F32 { bits: 0x447a_0000 }).minus(safe).is_finite(),
{
    lemma_thousandth(temp_mc);
    lemma_small_minus_is_finite(F32::from_signed(temp_mc).over(F32 { bits: 0x447a_0000 }), safe);
}

proof fn lemma_cold(s: SignalState, safe: F32, critical: F32)
    requires
        safe.is_finite(),
        critical.is_finite(),
    ensures
        F32::from_signed(s.temp_mc).over(F32 { bits: 0x447a_0000 }).value() <= safe.value()
            ==> s.heat(safe, critical).value() == 0,
{
    let c = F32::from_signed(s.temp_mc).over(F32 { bits: 0x447a_0000 });
    let d = c.minus(safe);
    let r = critical.minus(safe);
    if c.value() <= safe.value() {
        lemma_in_degrees(s.temp_mc);
        lemma_finite_distance(s.temp_mc, safe);
        law_difference_keeps_its_side(c, safe);
        law_difference_keeps_its_side(critical, safe);
        lemma_cold_quotient(d, r);
    }
}

proof fn lemma_cold_quotient(d: F32, r: F32)
    requires
        d.is_finite(),
        d.value() <= 0,
        !r.is_nan(),
    ensures
        (F32 { bits: 0 }).lt(r) ==> d.over(r).clamped(
            F32 { bits: 0 },
            F32 { bits: 0x3f80_0000 },
        ).value() == 0,
        (F32 { bits: 0 }).value() == 0,
{
    let zero = F32 { bits: 0 };
    lemma_formats();
    lemma_constants();
    lemma_order32(zero, r);
    if zero.lt(r) {
        if r.is_finite() {
            law_quotient_keeps_its_side(d, r);
            law_cut_to_a_share(d.over(r));
        } else {
            lemma_over_infinite(d, r);
        }
    }
}

proof fn lemma_over_infinite(d: F32, r: F32)
    requires
        d.is_finite(),
        !r.is_nan(),
        !r.is_finite(),
    ensures
        d.over(r).clamped(F32 { bits: 0 }, F32 { bits: 0x3f80_0000 }).value() == 0,
{
    let q = d.over(r);
    lemma_formats();
    assert(!q.is_nan() && q.signed().rank() == 0);
    lemma_order32(q, F32 { bits: 0 });
    lemma_order32(F32 { bits: 0 }, q);
    lemma_pow2_pos(149);
    law_cut_to_a_share(q);
}

proof fn lemma_warm(s: SignalState, safe: F32, critical: F32)
    requires
        safe.is_finite(),
        critical.is_finite(),
        critical.minus(safe).is_finite(),
        0 < critical.minus(safe).value(),
    ensures
        ({
            let c = F32::from_signed(s.temp_mc).over(F32 { bits: 0x447a_0000 });
            let d = c.minus(safe);
            let r = critical.minus(safe);
            let heat = s.heat(safe, critical);
            &&& c.value() >= critical.value() ==> heat.value() == pow2(149)
            &&& 0 <= d.value() <= r.value() ==> heat.is(d.value() * pow2(149), r.value() as nat)
        }),
{
    let c = F32::from_signed(s.temp_mc).over(F32 { bits: 0x447a_0000 });
    let d = c.minus(safe);
    let r = critical.minus(safe);
    lemma_finite_distance(s.temp_mc, safe);
    lemma_in_degrees(s.temp_mc);
    lemma_positive_range(r);
    law_quotient_keeps_its_side(d, r);
    law_cut_to_a_share(d.over(r));
    if c.value() >= critical.value() {
        lemma_hot(c, critical, safe);
    }
}

proof fn lemma_positive_range(r: F32)
    requires
        r.is_finite(),
        0 < r.value(),
    ensures
        (F32 { bits: 0 }).lt(r),
{
    lemma_formats();
    lemma_order32(F32 { bits: 0 }, r);
}

proof fn lemma_hot(c: F32, critical: F32, safe: F32)
    requires
        c.is_finite(),
        critical.is_finite(),
        safe.is_finite(),
        c.value() >= critical.value(),
    ensures
        c.minus(safe).value() >= critical.minus(safe).value(),
{
    lemma_formats();
    lemma_order32(c, critical);
    law_minus_follows_its_first(critical, c, safe);
    law_difference_keeps_its_side(c, safe);
    law_difference_keeps_its_side(critical, safe);
    lemma_order32(c.minus(safe), critical.minus(safe));
}

/// Memory is not low where all of it is available, is low where none is, and less of it never
/// clears what more of it would have set off, for enter thresholds from zero to below one.
pub proof fn law_less_memory_is_lower(p: LuaPolicy, signal: SystemSignal, worse: SystemSignal)
    requires
        signal is MemoryPressure,
        worse is MemoryPressure,
        signal->total_bytes > 0,
        signal->total_bytes == worse->total_bytes,
        worse->available_bytes <= signal->available_bytes,
        !p.trigger_engine.trigger.mem_low,
        !p.trigger_engine.config.mem_enter.is_nan(),
        0 <= p.trigger_engine.config.mem_enter.value() < pow2(1074),
    ensures
        signal->available_bytes >= signal->total_bytes
            ==> !p.with_reading(signal).trigger_engine.trigger.mem_low,
        worse->available_bytes == 0 ==> p.with_reading(worse).trigger_engine.trigger.mem_low,
        p.with_reading(signal).trigger_engine.trigger.mem_low
            ==> p.with_reading(worse).trigger_engine.trigger.mem_low,
{
    let t = signal->total_bytes;
    let a1 = signal->available_bytes;
    let a2 = worse->available_bytes;
    let enter = p.trigger_engine.config.mem_enter;
    let m1 = LuaPolicy::memory_share(a1, t);
    let m2 = LuaPolicy::memory_share(a2, t);
    lemma_taken(a1, t);
    lemma_taken(a2, t);
    lemma_taken_follows(a2, a1, t);
    law_memory_decides_its_trigger(p.trigger_engine, m1);
    law_memory_decides_its_trigger(p.trigger_engine, m2);
    lemma_order64(enter, m1);
    lemma_order64(enter, m2);
}

/// What the memory trigger is decided by: one less the available share, each as near as numbers
/// get, and nothing where the total is not known.
pub proof fn law_memory_trigger_sees_the_taken_share(available: u64, total: u64)
    ensures
        total == 0 ==> LuaPolicy::memory_share(available, total).value() == 0,
        total > 0 ==> exists|a: F64, t: F64, q: F64|
            #![trigger a.is(available * pow2(1074), 1), t.is(total * pow2(1074), 1), q.is(
                a.value() * pow2(1074),
                t.value() as nat,
            )]
            a.is(available * pow2(1074), 1) && t.is(total * pow2(1074), 1) && t.value() > 0 && q.is(
                a.value() * pow2(1074),
                t.value() as nat,
            ) && (q.is_finite() ==> LuaPolicy::memory_share(available, total).is(
                pow2(1074) - q.value(),
                1,
            )),
{
    lemma_constants();
    if total > 0 {
        lemma_taken(available, total);
        lemma_whole64(available);
        lemma_whole64(total);
        crate::float::meaning::law_over64(F64::from_whole(available), F64::from_whole(total));
    }
}

proof fn lemma_whole64(n: u64)
    ensures
        F64::from_whole(n).is(n * pow2(1074), 1),
        F64::from_whole(n).is_finite(),
        F64::from_whole(n).value() >= 0,
        n > 0 <==> F64::from_whole(n).value() > 0,
{
    let zero = F64 { bits: 0 };
    law_from_whole64(n);
    law_whole_is_finite(n);
    lemma_formats();
    lemma_order64(F64::from_whole(n), zero);
    lemma_order64(zero, F64::from_whole(n));
}

proof fn lemma_whole64_follows(n1: u64, n2: u64)
    requires
        n1 <= n2,
    ensures
        F64::from_whole(n2).value() >= F64::from_whole(n1).value(),
        F64::from_whole(n2).at_least(F64::from_whole(n1)),
{
    let f = crate::float::binary64();
    let w = pow2(1074);
    lemma_formats();
    lemma_whole64(n1);
    lemma_whole64(n2);
    law_whole_is_finite(n1);
    law_whole_is_finite(n2);
    crate::float::meaning::lemma_is64(F64::from_whole(n1), n1 * w, 1);
    crate::float::meaning::lemma_is64(F64::from_whole(n2), n2 * w, 1);
    assert(0 <= n1 * w && n1 * w * 1 <= n2 * w * 1) by (nonlinear_arith)
        requires
            n1 <= n2,
            w >= 0,
            n1 >= 0,
    ;
    crate::float::model::law_rounding_is_monotone(f, (n1 * w) as nat, 1, (n2 * w) as nat, 1);
    crate::float::model::lemma_round_is(
        f,
        (n1 * w) as nat,
        1,
        F64::from_whole(n1).signed().key as nat,
    );
    crate::float::model::lemma_round_is(
        f,
        (n2 * w) as nat,
        1,
        F64::from_whole(n2).signed().key as nat,
    );
    lemma_order64(F64::from_whole(n2), F64::from_whole(n1));
}

proof fn lemma_taken(available: u64, total: u64)
    requires
        total > 0,
    ensures
        ({
            let m = LuaPolicy::memory_share(available, total);
            let q = F64::from_whole(available).over(F64::from_whole(total));
            &&& !m.is_nan()
            &&& !q.is_nan()
            &&& q.is_finite() ==> m.is(pow2(1074) - q.value(), 1)
            &&& available >= total ==> m.value() <= 0
            &&& available == 0 ==> m.value() == pow2(1074)
        }),
{
    let a = F64::from_whole(available);
    let t = F64::from_whole(total);
    lemma_whole64(available);
    lemma_whole64(total);
    law_quotient64_keeps_its_side(a, t);
    law_rest_of_one64(a.over(t));
    if available >= total {
        lemma_whole64_follows(total, available);
    }
}

proof fn lemma_taken_follows(less: u64, more: u64, total: u64)
    requires
        total > 0,
        less <= more,
    ensures
        LuaPolicy::memory_share(less, total).value() >= LuaPolicy::memory_share(
            more,
            total,
        ).value(),
{
    let one = F64 { bits: 0x3ff0_0000_0000_0000 };
    let t = F64::from_whole(total);
    let a1 = F64::from_whole(less);
    let a2 = F64::from_whole(more);
    lemma_formats();
    lemma_whole64(total);
    lemma_order64(F64 { bits: 0 }, t);
    lemma_whole64_follows(less, more);
    law_over64_follows_its_first(a1, a2, t);
    law_minus64_falls_with_its_second(one, a1.over(t), a2.over(t));
    lemma_taken(less, total);
    lemma_taken(more, total);
    lemma_order64(LuaPolicy::memory_share(less, total), LuaPolicy::memory_share(more, total));
}

} // verus!
