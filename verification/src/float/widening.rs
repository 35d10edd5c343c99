//! Every number of the narrower format is one of the wider format.

use crate::float::model::{hidden, lemma_units_at, units};
use crate::float::signed::{widen, widens_to, Signed};
use crate::float::{binary32, binary64, lemma_formats, F32, F64};
use vstd::arithmetic::power2::{lemma2_to64, lemma_pow2_adds, pow2};
use vstd::prelude::*;

verus! {

/// How often a number has to be doubled to have 53 places.
proof fn lemma_halved(m: nat, s: nat) -> (r: nat)
    requires
        0 < m < 0x10_0000_0000_0000,
        s <= 52,
        m * pow2(s) >= 0x10_0000_0000_0000,
    ensures
        r <= s,
        0x10_0000_0000_0000 <= m * pow2(r) < 0x20_0000_0000_0000,
    decreases s,
{
    lemma2_to64();
    if m * pow2(s) < 0x20_0000_0000_0000 {
        s
    } else {
        if s == 0 {
            assert(m * pow2(0) == m) by (nonlinear_arith)
                requires
                    pow2(0) == 1,
            ;
        }
        let t = (s - 1) as nat;
        lemma_pow2_adds(1, t);
        assert(m * pow2(s) == 2 * (m * pow2(t))) by (nonlinear_arith)
            requires
                pow2(s) == 2 * pow2(t),
        ;
        lemma_halved(m, t)
    }
}

proof fn lemma_place(m: nat, e: nat) -> (key: nat)
    requires
        m < 0x100_0000,
        e <= 253,
    ensures
        key < binary64().infinity,
        units(binary64(), key) == (m * pow2(e)) * pow2(925),
{
    let g = binary64();
    lemma_formats();
    lemma2_to64();
    vstd::arithmetic::power2::lemma2_to64_rest();
    if m == 0 {
        lemma_units_at(g, 0, 0);
        assert(0 * pow2(0) == 0);
        assert((0 * pow2(e)) * pow2(925) == 0) by (nonlinear_arith);
        0
    } else {
        assert(m * pow2(52) >= 0x10_0000_0000_0000) by (nonlinear_arith)
            requires
                m > 0,
                pow2(52) == 0x10_0000_0000_0000,
        ;
        let s = lemma_halved(m, 52);
        let up = (e + 925 - s) as nat;
        let sig = m * pow2(s);
        lemma_units_at(g, up, sig);
        lemma_pow2_adds(s, up);
        lemma_pow2_adds(e, 925);
        assert((m * pow2(s)) * pow2(up) == m * (pow2(s) * pow2(up))) by (nonlinear_arith);
        assert((m * pow2(e)) * pow2(925) == m * (pow2(e) * pow2(925))) by (nonlinear_arith);
        assert(up * 0x10_0000_0000_0000 <= 1178 * 0x10_0000_0000_0000) by (nonlinear_arith)
            requires
                up <= 1178,
        ;
        up * hidden(g) + sig
    }
}

/// A finite number keeps its value in the wider format.
pub proof fn law_widen_keeps_the_value(x: F32)
    requires
        x.is_finite(),
    ensures
        x.widen().is_finite(),
        x.widen().value() == x.value() * pow2(925),
{
    let f = binary32();
    let g = binary64();
    let a = x.signed();
    let k = a.key as nat;
    let h = hidden(f);
    lemma_formats();
    lemma2_to64();
    let key = if k < h {
        assert(k * pow2(0) == k) by (nonlinear_arith)
            requires
                pow2(0) == 1,
        ;
        lemma_place(k, 0)
    } else {
        let e = (k / h - 1) as nat;
        assert(k / 0x80_0000 <= 254);
        lemma_place(h + k % h, e)
    };
    let y = Signed { negative: a.negative, key: key as u64 };
    assert(widens_to(f, g, a, y));
    let z = widen(f, g, a);
    assert(widens_to(f, g, a, z));
    lemma_wide_value(x, z);
}

proof fn lemma_wide_value(x: F32, z: Signed)
    requires
        x.is_finite(),
        widens_to(binary32(), binary64(), x.signed(), z),
    ensures
        F64::of(z).is_finite(),
        F64::of(z).value() == x.value() * pow2(925),
{
    reveal(F32::value);
    reveal(F64::value);
    lemma_formats();
    assert(F64::of(z).signed() == z);
    let u = units(binary32(), x.signed().key as nat);
    assert((-(u as int)) * pow2(925) == -(u * pow2(925))) by (nonlinear_arith);
}

} // verus!
