//! Arithmetic on magnitudes: the exact result, rounded once.

use crate::float::model::{
    hidden, lemma_hidden, lemma_round_exact, lemma_units_at, lemma_units_increase, round, units,
    Format,
};
use crate::float::round::{
    bit_length, leads, lemma_pow2_mono, lemma_pow2_small, power_of_two, round_leading,
};
use vstd::arithmetic::div_mod::lemma_fundamental_div_mod;
use vstd::arithmetic::power2::{lemma_pow2_adds, lemma_pow2_pos, pow2};
use vstd::prelude::*;

verus! {

/// How far apart two exponents may be for their sum to be formed without dropping a place.
const WINDOW: u32 = 60;

proof fn lemma_hidden_bound(f: Format)
    requires
        f.wf(),
    ensures
        2 <= hidden(f) <= 0x10_0000_0000_0000,
        pow2(f.precision as nat) == 2 * hidden(f),
{
    lemma_hidden(f);
    lemma_pow2_small();
    lemma_pow2_mono((f.precision - 1) as nat, 52);
}

/// The significand and the exponent of a finite magnitude.
pub fn parts(f: Format, key: u64) -> (r: (u64, u32))
    requires
        f.wf(),
        key < f.infinity,
    ensures
        r.0 < 2 * hidden(f),
        r.1 == 0 || r.0 >= hidden(f),
        r.1 <= 2047,
        units(f, key as nat) == r.0 * pow2(r.1 as nat),
        key == r.1 * hidden(f) + r.0,
{
    proof {
        lemma_hidden_bound(f);
    }
    let h: u64 = power_of_two(f.precision - 1) as u64;
    if key < h {
        proof {
            assert(0nat * hidden(f) == 0);
            lemma_units_at(f, 0, key as nat);
        }
        (key, 0)
    } else {
        let e: u64 = key / h;
        let r: u64 = key % h;
        proof {
            lemma_fundamental_div_mod(key as int, h as int);
            lemma_fundamental_div_mod(f.infinity as int, h as int);
            let top = f.infinity as nat / hidden(f);
            assert(1 <= e <= 2048) by (nonlinear_arith)
                requires
                    key == h * e + r,
                    key >= h,
                    0 <= r < h,
                    f.infinity == h * top,
                    key < f.infinity,
                    top <= 2048,
            ;
            assert(key == (e - 1) * h + (h + r)) by (nonlinear_arith)
                requires
                    key == h * e + r,
            ;
            lemma_units_at(f, (e - 1) as nat, (h + r) as nat);
        }
        (h + r, (e - 1) as u32)
    }
}

/// Of two magnitudes the greater has the greater exponent, or the same.
proof fn lemma_exponents_ordered(f: Format, a: nat, ma: nat, ea: nat, b: nat, mb: nat, eb: nat)
    requires
        f.wf(),
        b <= a,
        a == ea * hidden(f) + ma,
        b == eb * hidden(f) + mb,
        ma < 2 * hidden(f),
        mb < 2 * hidden(f),
        eb == 0 || mb >= hidden(f),
    ensures
        eb <= ea,
{
    let h = hidden(f);
    lemma_hidden(f);
    if eb > ea {
        assert(eb * h + mb > ea * h + ma) by (nonlinear_arith)
            requires
                eb >= ea + 1,
                mb >= h,
                ma < 2 * h,
        {
            assert(eb * h >= (ea + 1) * h);
            assert((ea + 1) * h == ea * h + h);
        }
    }
}

/// The exact facts behind a sum or a difference of two far apart magnitudes: in the place of
/// `WINDOW` bits under the greater one, the lesser one leaves `b` and a rest.
proof fn lemma_far(ma: nat, ea: nat, mb: nat, eb: nat, b: nat, rest: nat)
    requires
        ea > eb + WINDOW,
        mb == b * pow2((ea - WINDOW - eb) as nat) + rest,
    ensures
        ({
            let u = pow2((ea - WINDOW) as nat);
            &&& ma * pow2(ea) == (ma * pow2(WINDOW as nat)) * u
            &&& mb * pow2(eb) == b * u + rest * pow2(eb)
            &&& rest < pow2((ea - WINDOW - eb) as nat) ==> rest * pow2(eb) < u
            &&& (rest > 0 <==> rest * pow2(eb) > 0)
        }),
{
    let u = pow2((ea - WINDOW) as nat);
    let g = pow2((ea - WINDOW - eb) as nat);
    let v = pow2(eb);
    let w = pow2(WINDOW as nat);
    lemma_pow2_adds(WINDOW as nat, (ea - WINDOW) as nat);
    lemma_pow2_adds((ea - WINDOW - eb) as nat, eb);
    lemma_pow2_pos(eb);
    assert(ma * (w * u) == (ma * w) * u) by (nonlinear_arith);
    assert(mb * v == b * (g * v) + rest * v) by (nonlinear_arith)
        requires
            mb == b * g + rest,
    ;
    if rest < g {
        assert(rest * v < g * v) by (nonlinear_arith)
            requires
                rest < g,
                v > 0,
        ;
    }
    assert(rest > 0 <==> rest * v > 0) by (nonlinear_arith)
        requires
            v > 0,
    ;
}

/// The lesser magnitude in the place of `WINDOW` bits under the greater one: whole part and rest.
fn place(m: u64, gap: u32) -> (r: (u128, u128))
    requires
        m < 0x20_0000_0000_0000,
        gap > 0,
    ensures
        m == r.0 * pow2(gap as nat) + r.1,
        r.1 < pow2(gap as nat),
        r.0 <= m,
{
    if gap > 60 {
        proof {
            lemma_pow2_small();
            lemma_pow2_mono(53, gap as nat);
            assert(0nat * pow2(gap as nat) == 0);
        }
        (0, m as u128)
    } else {
        let g: u128 = power_of_two(gap);
        proof {
            lemma_pow2_pos(gap as nat);
            lemma_fundamental_div_mod(m as int, g as int);
        }
        let b: u128 = (m as u128) / g;
        let rest: u128 = (m as u128) % g;
        proof {
            assert(b <= m) by (nonlinear_arith)
                requires
                    m == g * b + rest,
                    g >= 1,
                    rest >= 0,
                    b >= 0,
            ;
            assert(m == b * g + rest) by (nonlinear_arith)
                requires
                    m == g * b + rest,
            ;
        }
        (b, rest)
    }
}

proof fn lemma_leads_whole(significand: nat, shift: nat, num: nat)
    requires
        num == significand * pow2(shift),
    ensures
        leads(significand, shift as int, false, num, 1),
{
    lemma_pow2_small();
    lemma_pow2_pos(shift);
    let u = pow2(shift);
    assert(u * 1 == u);
    assert(num * 1 == num);
    assert(significand * u < (significand + 1) * u) by (nonlinear_arith)
        requires
            u > 0,
    ;
}

proof fn lemma_leads_part(significand: nat, shift: nat, rest: nat, num: nat)
    requires
        num == significand * pow2(shift) + rest,
        rest < pow2(shift),
    ensures
        leads(significand, shift as int, rest > 0, num, 1),
{
    lemma_pow2_small();
    let u = pow2(shift);
    assert(u * 1 == u);
    assert(num * 1 == num);
    assert((significand + 1) * u == significand * u + u) by (nonlinear_arith);
}

/// The sum of two finite magnitudes.
pub fn sum(f: Format, x: u64, y: u64) -> (r: u64)
    requires
        f.wf(),
        x < f.infinity,
        y < f.infinity,
    ensures
        r == round(f, units(f, x as nat) + units(f, y as nat), 1),
        r <= f.infinity,
{
    let a: u64 = if x >= y { x } else { y };
    let b: u64 = if x >= y { y } else { x };
    let (ma, ea) = parts(f, a);
    let (mb, eb) = parts(f, b);
    let ghost num = units(f, a as nat) + units(f, b as nat);
    proof {
        lemma_hidden_bound(f);
        lemma_pow2_small();
        lemma_exponents_ordered(
            f, a as nat, ma as nat, ea as nat, b as nat, mb as nat, eb as nat,
        );
    }
    let gap: u32 = ea - eb;
    if gap <= WINDOW {
        let w: u128 = power_of_two(gap);
        proof {
            lemma_pow2_mono(gap as nat, 60);
            assert(pow2(60) == 0x1000_0000_0000_0000) by {
                vstd::arithmetic::power2::lemma2_to64_rest();
            }
            assert(ma * w <= 0x20_0000_0000_0000 * 0x1000_0000_0000_0000) by (nonlinear_arith)
                requires
                    0 <= ma <= 0x20_0000_0000_0000,
                    0 <= w <= 0x1000_0000_0000_0000,
            ;
        }
        let significand: u128 = (ma as u128) * w + (mb as u128);
        proof {
            lemma_pow2_adds(gap as nat, eb as nat);
            let v = pow2(eb as nat);
            assert(num == significand * v) by (nonlinear_arith)
                requires
                    num == ma * (w * v) + mb * v,
                    significand == ma * w + mb,
            ;
            lemma_leads_whole(significand as nat, eb as nat, num);
        }
        if significand == 0 {
            proof {
                assert(0nat * pow2(eb as nat) == 0);
                lemma_units_at(f, 0, 0);
                assert(0nat * hidden(f) == 0);
                lemma_round_exact(f, 0, 1, 0);
            }
            return 0;
        }
        round_leading(f, significand, eb as i32, false, Ghost(num), Ghost(1))
    } else {
        let w: u128 = power_of_two(WINDOW);
        let (low, rest) = place(mb, gap - WINDOW);
        proof {
            assert(pow2(60) == 0x1000_0000_0000_0000) by {
                vstd::arithmetic::power2::lemma2_to64_rest();
            }
            assert(hidden(f) * 0x1000_0000_0000_0000 <= ma * w
                <= 0x20_0000_0000_0000 * 0x1000_0000_0000_0000) by (nonlinear_arith)
                requires
                    hidden(f) <= ma <= 0x20_0000_0000_0000,
                    w == 0x1000_0000_0000_0000,
            ;
        }
        let significand: u128 = (ma as u128) * w + low;
        proof {
            lemma_far(ma as nat, ea as nat, mb as nat, eb as nat, low as nat, rest as nat);
            let u = pow2((ea - WINDOW) as nat);
            assert(significand * u == (ma * w) * u + low * u) by (nonlinear_arith)
                requires
                    significand == ma * w + low,
            ;
            lemma_leads_part(
                significand as nat,
                (ea - WINDOW) as nat,
                rest as nat * pow2(eb as nat),
                num,
            );
        }
        round_leading(f, significand, (ea - WINDOW) as i32, rest > 0, Ghost(num), Ghost(1))
    }
}

/// The difference of two finite magnitudes, the greater less the smaller.
pub fn difference(f: Format, a: u64, b: u64) -> (r: u64)
    requires
        f.wf(),
        b < a < f.infinity,
    ensures
        units(f, b as nat) < units(f, a as nat),
        r == round(f, (units(f, a as nat) - units(f, b as nat)) as nat, 1),
        r <= f.infinity,
{
    let (ma, ea) = parts(f, a);
    let (mb, eb) = parts(f, b);
    proof {
        lemma_units_increase(f, b as nat, a as nat);
        lemma_hidden_bound(f);
        lemma_pow2_small();
        lemma_exponents_ordered(
            f, a as nat, ma as nat, ea as nat, b as nat, mb as nat, eb as nat,
        );
    }
    let ghost num = (units(f, a as nat) - units(f, b as nat)) as nat;
    let gap: u32 = ea - eb;
    if gap <= WINDOW {
        let w: u128 = power_of_two(gap);
        proof {
            lemma_pow2_mono(gap as nat, 60);
            assert(pow2(60) == 0x1000_0000_0000_0000) by {
                vstd::arithmetic::power2::lemma2_to64_rest();
            }
            assert(ma * w <= 0x20_0000_0000_0000 * 0x1000_0000_0000_0000) by (nonlinear_arith)
                requires
                    0 <= ma <= 0x20_0000_0000_0000,
                    0 <= w <= 0x1000_0000_0000_0000,
            ;
            lemma_pow2_adds(gap as nat, eb as nat);
            lemma_pow2_pos(eb as nat);
            let v = pow2(eb as nat);
            assert(ma * w > mb) by (nonlinear_arith)
                requires
                    ma * (w * v) > mb * v,
                    v > 0,
            {
                assert((ma * w) * v > mb * v);
            }
            assert(num == (ma * w - mb) * v) by (nonlinear_arith)
                requires
                    num == ma * (w * v) - mb * v,
            ;
        }
        let significand: u128 = (ma as u128) * w - (mb as u128);
        proof {
            lemma_leads_whole(significand as nat, eb as nat, num);
        }
        round_leading(f, significand, eb as i32, false, Ghost(num), Ghost(1))
    } else {
        let w: u128 = power_of_two(WINDOW);
        let (low, rest) = place(mb, gap - WINDOW);
        proof {
            assert(pow2(60) == 0x1000_0000_0000_0000) by {
                vstd::arithmetic::power2::lemma2_to64_rest();
            }
            assert(hidden(f) * 0x1000_0000_0000_0000 <= ma * w
                <= 0x20_0000_0000_0000 * 0x1000_0000_0000_0000) by (nonlinear_arith)
                requires
                    hidden(f) <= ma <= 0x20_0000_0000_0000,
                    w == 0x1000_0000_0000_0000,
            ;
            lemma_far(ma as nat, ea as nat, mb as nat, eb as nat, low as nat, rest as nat);
        }
        let borrow: u128 = if rest > 0 { 1 } else { 0 };
        let significand: u128 = (ma as u128) * w - low - borrow;
        let ghost u = pow2((ea - WINDOW) as nat);
        proof {
            let left = if rest > 0 {
                (u - rest as nat * pow2(eb as nat)) as nat
            } else {
                0
            };
            assert(significand * u == (ma * w) * u - low * u - borrow * u) by (nonlinear_arith)
                requires
                    significand == ma * w - low - borrow,
            ;
            assert(borrow * u == if rest > 0 { u as int } else { 0 }) by (nonlinear_arith)
                requires
                    borrow == if rest > 0 { 1int } else { 0 },
            ;
            assert(rest == 0 ==> rest as nat * pow2(eb as nat) == 0);
            lemma_pow2_pos((ea - WINDOW) as nat);
            lemma_leads_part(significand as nat, (ea - WINDOW) as nat, left, num);
        }
        round_leading(f, significand, (ea - WINDOW) as i32, rest > 0, Ghost(num), Ghost(1))
    }
}

/// The product of two finite magnitudes.
pub fn product(f: Format, a: u64, b: u64) -> (r: u64)
    requires
        f.wf(),
        a < f.infinity,
        b < f.infinity,
    ensures
        r == round(f, units(f, a as nat) * units(f, b as nat), pow2(f.scale as nat)),
        r <= f.infinity,
{
    let (ma, ea) = parts(f, a);
    let (mb, eb) = parts(f, b);
    let ghost num = units(f, a as nat) * units(f, b as nat);
    let ghost den = pow2(f.scale as nat);
    proof {
        lemma_hidden_bound(f);
        lemma_pow2_small();
        lemma_pow2_pos(f.scale as nat);
        assert(ma * mb <= 0x20_0000_0000_0000 * 0x20_0000_0000_0000) by (nonlinear_arith)
            requires
                0 <= ma <= 0x20_0000_0000_0000,
                0 <= mb <= 0x20_0000_0000_0000,
        ;
    }
    let significand: u128 = (ma as u128) * (mb as u128);
    proof {
        lemma_pow2_adds(ea as nat, eb as nat);
        let va = pow2(ea as nat);
        let vb = pow2(eb as nat);
        assert(num == significand * (va * vb)) by (nonlinear_arith)
            requires
                num == (ma * va) * (mb * vb),
                significand == ma * mb,
        ;
    }
    if significand == 0 {
        proof {
            assert(0nat * pow2((ea + eb) as nat) == 0);
            lemma_units_at(f, 0, 0);
            assert(0nat * hidden(f) == 0);
            assert(0nat * den == 0);
            lemma_round_exact(f, 0, den, 0);
        }
        return 0;
    }
    let shift: i32 = ea as i32 + eb as i32 - f.scale as i32;
    proof {
        lemma_leads_scaled(significand as nat, (ea + eb) as nat, f.scale as nat, num);
    }
    round_leading(f, significand, shift, false, Ghost(num), Ghost(den))
}

/// A whole number of units divided by a power of two.
proof fn lemma_leads_scaled(significand: nat, exponent: nat, scale: nat, num: nat)
    requires
        num == significand * pow2(exponent),
    ensures
        leads(significand, exponent - scale, false, num, pow2(scale)),
{
    let shift = exponent - scale;
    let den = pow2(scale);
    let a = pow2(if shift >= 0 { shift as nat } else { 0 });
    let b = pow2(if shift >= 0 { 0 } else { (-shift) as nat });
    lemma_pow2_small();
    lemma_pow2_pos(scale);
    lemma_pow2_pos(exponent);
    if shift >= 0 {
        lemma_pow2_adds(shift as nat, scale);
        assert(num * 1 == num);
    } else {
        lemma_pow2_adds(exponent, (-shift) as nat);
        assert(num * b == significand * (pow2(exponent) * b)) by (nonlinear_arith)
            requires
                num == significand * pow2(exponent),
        ;
        assert(1 * den == den);
    }
    let u = a * den;
    assert(significand * u < (significand + 1) * u) by (nonlinear_arith)
        requires
            u > 0,
    ;
}

/// The quotient of two finite magnitudes, the second not zero.
pub fn quotient(f: Format, a: u64, b: u64) -> (r: u64)
    requires
        f.wf(),
        a < f.infinity,
        0 < b < f.infinity,
    ensures
        units(f, b as nat) > 0,
        r == round(f, units(f, a as nat) * pow2(f.scale as nat), units(f, b as nat)),
        r <= f.infinity,
{
    let (ma, ea) = parts(f, a);
    let (mb, eb) = parts(f, b);
    let ghost ua = units(f, a as nat);
    let ghost ub = units(f, b as nat);
    let ghost num = ua * pow2(f.scale as nat);
    proof {
        lemma_hidden_bound(f);
        lemma_pow2_small();
        lemma_pow2_pos(f.scale as nat);
        lemma_units_increase(f, 0, b as nat);
    }
    if ma == 0 {
        proof {
            assert(0nat * pow2(ea as nat) == 0);
            assert(0nat * pow2(f.scale as nat) == 0);
            lemma_units_at(f, 0, 0);
            assert(0nat * hidden(f) == 0);
            assert(0nat * ub == 0);
            lemma_round_exact(f, 0, ub, 0);
        }
        return 0;
    }
    assert(mb > 0) by {
        assert(0nat * pow2(eb as nat) == 0);
    }
    let (na, ca) = widen(f, ma);
    let (nb, cb) = widen(f, mb);
    let extra: u32 = f.precision + 2;
    let w: u128 = power_of_two(extra);
    proof {
        lemma_pow2_adds(f.precision as nat, 2);
        lemma_pow2_adds(53, 2);
        lemma_pow2_mono(extra as nat, 55);
        assert(pow2(2) == 4) by {
            vstd::arithmetic::power2::lemma2_to64();
        }
        assert(w == 8 * hidden(f));
        assert(na * w <= 0x20_0000_0000_0000 * 0x80_0000_0000_0000) by (nonlinear_arith)
            requires
                0 <= na <= 0x20_0000_0000_0000,
                0 <= w <= 0x80_0000_0000_0000,
        ;
    }
    let wide: u128 = na * w;
    let significand: u128 = wide / nb;
    let rest: u128 = wide % nb;
    let shift: i32 = ea as i32 - ca as i32 - eb as i32 + cb as i32 + f.scale as i32 - extra as i32;
    proof {
        lemma_fundamental_div_mod(wide as int, nb as int);
        assert(significand * nb + rest == wide) by (nonlinear_arith)
            requires
                wide == nb * significand + rest,
        ;
        let h = hidden(f);
        assert(2 * h <= significand) by (nonlinear_arith)
            requires
                significand * nb + rest == na * w,
                rest < nb,
                nb < 2 * h,
                h <= na,
                w == 8 * h,
                h >= 2,
        {
            assert(na * w >= h * (8 * h));
            if significand < 2 * h {
                assert(significand * nb <= (2 * h - 1) * (2 * h));
                assert((2 * h - 1) * (2 * h) + 2 * h == 4 * (h * h));
                assert(h * (8 * h) == 8 * (h * h));
            }
        }
        assert(significand <= wide) by (nonlinear_arith)
            requires
                significand * nb + rest == wide,
                nb >= 1,
                rest >= 0,
                significand >= 0,
        ;
        lemma_swap(ma as nat, pow2(ea as nat), pow2(ca as nat));
        lemma_swap(mb as nat, pow2(eb as nat), pow2(cb as nat));
        lemma_leads_quotient(
            ua, ub, f.scale as nat, na as nat, nb as nat, w as nat, extra as nat, ea as nat,
            ca as nat, eb as nat, cb as nat, significand as nat, rest as nat,
        );
    }
    round_leading(f, significand, shift, rest > 0, Ghost(num), Ghost(ub))
}

/// The significand shifted until its highest bit is the implicit one.
fn widen(f: Format, m: u64) -> (r: (u128, u32))
    requires
        f.wf(),
        0 < m < 2 * hidden(f),
    ensures
        hidden(f) <= r.0 < 2 * hidden(f),
        r.1 <= 53,
        r.0 == m * pow2(r.1 as nat),
{
    proof {
        lemma_hidden_bound(f);
        lemma_pow2_small();
    }
    let n: u32 = bit_length(m as u128);
    proof {
        if n > f.precision {
            lemma_pow2_mono(f.precision as nat, (n - 1) as nat);
        }
    }
    let c: u32 = f.precision - n;
    let w: u128 = power_of_two(c);
    proof {
        lemma_pow2_adds(n as nat, c as nat);
        lemma_pow2_adds((n - 1) as nat, c as nat);
        lemma_pow2_pos(c as nat);
        assert(m * w < pow2(n as nat) * w) by (nonlinear_arith)
            requires
                m < pow2(n as nat),
                w > 0,
        ;
        assert(pow2((n - 1) as nat) * w <= m * w) by (nonlinear_arith)
            requires
                pow2((n - 1) as nat) <= m,
                w > 0,
        ;
    }
    ((m as u128) * w, c)
}

proof fn lemma_swap(m: nat, e: nat, c: nat)
    ensures
        (m * e) * c == (m * c) * e,
{
    assert((m * e) * c == (m * c) * e) by (nonlinear_arith);
}

proof fn lemma_regroup(u: nat, z: nat, b: nat, p: nat, q: nat, w: nat)
    ensures
        (u * z) * b * (p * q * w) == (u * p) * (z * b * q * w),
{
    assert((u * z) * b * (p * q * w) == (u * p) * (z * b * q * w)) by (nonlinear_arith);
}

proof fn lemma_leads_quotient(
    ua: nat,
    ub: nat,
    scale: nat,
    na: nat,
    nb: nat,
    w: nat,
    extra: nat,
    ea: nat,
    ca: nat,
    eb: nat,
    cb: nat,
    significand: nat,
    rest: nat,
)
    requires
        ub > 0,
        w == pow2(extra),
        ua * pow2(ca) == na * pow2(ea),
        ub * pow2(cb) == nb * pow2(eb),
        significand * nb + rest == na * w,
        rest < nb,
    ensures
        leads(
            significand,
            ea - ca - eb + cb + scale - extra,
            rest > 0,
            ua * pow2(scale),
            ub,
        ),
{
    let shift = ea - ca - eb + cb + scale - extra;
    let num = ua * pow2(scale);
    let p = if shift >= 0 { shift as nat } else { 0 };
    let q = if shift >= 0 { 0 } else { (-shift) as nat };
    let a = pow2(p);
    let b = pow2(q);
    // Both sides are multiplied by `k`, which clears the exponents.
    let k = pow2(ca) * pow2(cb) * pow2(extra);
    lemma_pow2_pos(ca);
    lemma_pow2_pos(cb);
    lemma_pow2_pos(extra);
    lemma_pow2_pos(p);
    lemma_pow2_pos(eb);
    assert(k > 0) by (nonlinear_arith)
        requires
            k == pow2(ca) * pow2(cb) * pow2(extra),
            pow2(ca) > 0,
            pow2(cb) > 0,
            pow2(extra) > 0,
    ;
    // The common factor of both sides.
    let g = pow2(ea + scale + cb + q);
    lemma_pow2_adds(ea, scale);
    lemma_pow2_adds(ea + scale, cb);
    lemma_pow2_adds(ea + scale + cb, q);
    lemma_regroup(ua, pow2(scale), b, pow2(ca), pow2(cb), w);
    assert(num * b * k == (na * w) * g) by {
        let rest = pow2(scale) * b * pow2(cb) * w;
        assert(num * b * k == (ua * pow2(ca)) * rest);
        assert((na * w) * g == (na * pow2(ea)) * rest) by (nonlinear_arith)
            requires
                g == pow2(ea) * pow2(scale) * pow2(cb) * b,
                rest == pow2(scale) * b * pow2(cb) * w,
        ;
    }
    lemma_pow2_adds(eb, p);
    lemma_pow2_adds(eb + p, ca);
    lemma_pow2_adds(eb + p + ca, extra);
    assert(eb + p + ca + extra == ea + scale + cb + q);
    assert((a * ub) * k == nb * g) by (nonlinear_arith)
        requires
            k == pow2(ca) * pow2(cb) * pow2(extra),
            ub * pow2(cb) == nb * pow2(eb),
            g == pow2(eb) * a * pow2(ca) * pow2(extra),
    {
        assert((a * ub) * k == (ub * pow2(cb)) * (a * pow2(ca) * pow2(extra)));
        assert(nb * g == (nb * pow2(eb)) * (a * pow2(ca) * pow2(extra)));
    }
    lemma_pow2_pos(ea + scale + cb + q);
    let u = a * ub;
    let n = num * b;
    assert((significand * u) * k == (significand * nb) * g) by (nonlinear_arith)
        requires
            u * k == nb * g,
    ;
    assert(((significand + 1) * u) * k == (significand * nb + nb) * g) by (nonlinear_arith)
        requires
            u * k == nb * g,
    ;
    assert(n * k == (significand * nb + rest) * g);
    let s1 = significand * nb;
    assert(s1 * g <= (s1 + rest) * g < (s1 + nb) * g) by (nonlinear_arith)
        requires
            g > 0,
            0 <= rest < nb,
    ;
    assert(rest > 0 <==> s1 * g != (s1 + rest) * g) by (nonlinear_arith)
        requires
            g > 0,
            rest >= 0,
    ;
    let low = significand * u;
    let high = (significand + 1) * u;
    assert(low <= n && n < high && (low == n <==> low * k == n * k)) by (nonlinear_arith)
        requires
            low * k <= n * k,
            n * k < high * k,
            k > 0,
    ;
}

/// The magnitude of a whole number.
pub fn whole(f: Format, n: u64) -> (r: u64)
    requires
        f.wf(),
    ensures
        r == round(f, n as nat * pow2(f.scale as nat), 1),
        r <= f.infinity,
{
    let ghost num = n as nat * pow2(f.scale as nat);
    if n == 0 {
        proof {
            lemma_hidden(f);
            assert(0nat * pow2(f.scale as nat) == 0);
            lemma_units_at(f, 0, 0);
            assert(0nat * hidden(f) == 0);
            lemma_round_exact(f, 0, 1, 0);
        }
        return 0;
    }
    proof {
        lemma_leads_whole(n as nat, f.scale as nat, num);
    }
    round_leading(f, n as u128, f.scale as i32, false, Ghost(num), Ghost(1))
}

/// A finite magnitude of one format as one of a format with fewer places.
pub fn narrowed(f: Format, g: Format, key: u64) -> (r: u64)
    requires
        f.wf(),
        g.wf(),
        g.scale <= f.scale,
        key < f.infinity,
    ensures
        r == round(g, units(f, key as nat), pow2((f.scale - g.scale) as nat)),
        r <= g.infinity,
{
    let (m, e) = parts(f, key);
    let ghost num = units(f, key as nat);
    let ghost den = pow2((f.scale - g.scale) as nat);
    proof {
        lemma_hidden_bound(f);
        lemma_hidden(g);
        lemma_pow2_pos((f.scale - g.scale) as nat);
    }
    if m == 0 {
        proof {
            assert(0nat * pow2(e as nat) == 0);
            lemma_units_at(g, 0, 0);
            assert(0nat * hidden(g) == 0);
            assert(0nat * den == 0);
            lemma_round_exact(g, 0, den, 0);
        }
        return 0;
    }
    proof {
        lemma_leads_scaled(m as nat, e as nat, (f.scale - g.scale) as nat, num);
    }
    let shift: i32 = e as i32 - (f.scale - g.scale) as i32;
    round_leading(g, m as u128, shift, false, Ghost(num), Ghost(den))
}

/// A finite magnitude of one format as the same number in a format with more places.
pub fn widened(f: Format, g: Format, key: u64) -> (r: u64)
    requires
        f.wf(),
        g.wf(),
        f.scale <= g.scale,
        f.precision <= g.precision,
        key < f.infinity,
        units(f, f.infinity as nat) * pow2((g.scale - f.scale) as nat)
            <= units(g, g.infinity as nat),
    ensures
        r < g.infinity,
        units(g, r as nat) == units(f, key as nat) * pow2((g.scale - f.scale) as nat),
{
    let (m, e) = parts(f, key);
    let ghost num = units(f, key as nat) * pow2((g.scale - f.scale) as nat);
    let ghost top = units(f, f.infinity as nat) * pow2((g.scale - f.scale) as nat);
    let ghost x = pow2((g.scale - f.scale) as nat);
    proof {
        lemma_hidden_bound(f);
        lemma_hidden_bound(g);
        lemma_units_increase(f, key as nat, f.infinity as nat);
        lemma_pow2_pos((g.scale - f.scale) as nat);
        assert(num < top) by (nonlinear_arith)
            requires
                num == units(f, key as nat) * x,
                top == units(f, f.infinity as nat) * x,
                units(f, key as nat) < units(f, f.infinity as nat),
                x > 0,
        ;
    }
    if m == 0 {
        proof {
            assert(0nat * pow2(e as nat) == 0);
            assert(0nat * x == 0);
            lemma_units_at(g, 0, 0);
            assert(0nat * hidden(g) == 0);
        }
        return 0;
    }
    let shift: u32 = e + (g.scale - f.scale);
    let n: u32 = bit_length(m as u128);
    proof {
        lemma_pow2_adds(e as nat, (g.scale - f.scale) as nat);
        assert(num == m * pow2(shift as nat)) by (nonlinear_arith)
            requires
                num == (m * pow2(e as nat)) * x,
                pow2(shift as nat) == pow2(e as nat) * x,
        ;
        if n > g.precision {
            lemma_pow2_mono(g.precision as nat, (n - 1) as nat);
            lemma_pow2_mono(f.precision as nat, g.precision as nat);
        }
    }
    // Move the significand up as far as the exponent and the format allow.
    let room: u32 = g.precision - n;
    let move_up: u32 = if room <= shift { room } else { shift };
    let w: u128 = power_of_two(move_up);
    proof {
        lemma_pow2_small();
        lemma_pow2_adds(n as nat, room as nat);
        lemma_pow2_mono(move_up as nat, room as nat);
        lemma_pow2_pos(move_up as nat);
        lemma_pow2_pos(n as nat);
        assert(m * w < pow2(n as nat) * pow2(room as nat)) by (nonlinear_arith)
            requires
                0 < m < pow2(n as nat),
                0 < w <= pow2(room as nat),
        ;
    }
    let significand: u64 = ((m as u128) * w) as u64;
    let exponent: u32 = shift - move_up;
    let h: u64 = power_of_two(g.precision - 1) as u64;
    proof {
        lemma_pow2_adds(exponent as nat, move_up as nat);
        assert(num == significand * pow2(exponent as nat)) by (nonlinear_arith)
            requires
                num == m * pow2(shift as nat),
                pow2(shift as nat) == pow2(exponent as nat) * w,
                significand == m * w,
        ;
        if exponent > 0 {
            lemma_pow2_adds((n - 1) as nat, room as nat);
            assert(pow2((n - 1) as nat) * w <= m * w) by (nonlinear_arith)
                requires
                    pow2((n - 1) as nat) <= m,
                    w > 0,
            ;
        }
        lemma_units_at(g, exponent as nat, significand as nat);
        let found = exponent as nat * hidden(g) + significand as nat;
        if found >= g.infinity {
            if found > g.infinity {
                lemma_units_increase(g, g.infinity as nat, found);
            }
        }
        assert(exponent as nat * hidden(g) <= 0x7fff_ffff_ffff_ffff);
    }
    let r: u64 = (exponent as u64) * h + significand;
    r
}

} // verus!
