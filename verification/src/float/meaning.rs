//! What the operations mean: each gives the number nearest to the exact result.
//!
//! The value of a number is counted in units, as everywhere here; a ratio of units stands for any
//! exact result.

use crate::float::model::{
    law_rounding_is_total, lemma_round_exact, lemma_round_is, lemma_units_at, lemma_units_increase,
    rounds_to, units, Format,
};
use crate::float::signed::{
    added, divided, law_order_is_of_values, lemma_added_rank, lemma_divided_rank,
    lemma_rounded_rank, multiplied, nearest, opposite, Signed,
};
use crate::float::{binary32, binary64, lemma_formats, F32, F64};
use vstd::arithmetic::power2::{lemma2_to64, lemma_pow2_adds, lemma_pow2_pos, pow2};
use vstd::prelude::*;

verus! {

/// `x` is the number nearest to `num / den` units, with its sign.
pub open spec fn is_nearest(f: Format, num: int, den: nat, x: Signed) -> bool {
    &&& num > 0 ==> !x.negative
    &&& num < 0 ==> x.negative
    &&& rounds_to(
        f,
        (if num >= 0 {
            num
        } else {
            -num
        }) as nat,
        den,
        x.key as nat,
    )
}

impl F32 {
    /// The value, in units of two to the power of -149.
    #[verifier::opaque]
    pub open spec fn value(self) -> int {
        self.signed().value(binary32())
    }

    /// This is the number nearest to `num / den` units.
    #[verifier::opaque]
    pub open spec fn is(self, num: int, den: nat) -> bool {
        is_nearest(binary32(), num, den, self.signed())
    }
}

impl F64 {
    /// The value, in units of two to the power of -1074.
    #[verifier::opaque]
    pub open spec fn value(self) -> int {
        self.signed().value(binary64())
    }

    /// This is the number nearest to `num / den` units.
    #[verifier::opaque]
    pub open spec fn is(self, num: int, den: nat) -> bool {
        is_nearest(binary64(), num, den, self.signed())
    }
}

pub proof fn lemma_scaled(f: Format, num: int, den: nat, by: nat, x: Signed)
    requires
        by > 0,
    ensures
        is_nearest(f, num, den, x) <==> is_nearest(f, num * by, den * by, x),
{
    let key = x.key as nat;
    let n = (if num >= 0 {
        num
    } else {
        -num
    }) as nat;
    assert(num * by > 0 <==> num > 0) by (nonlinear_arith)
        requires
            by > 0,
    ;
    assert(num * by < 0 <==> num < 0) by (nonlinear_arith)
        requires
            by > 0,
    ;
    assert((-num) * by == -(num * by)) by (nonlinear_arith);
    let low = units(f, (key - 1) as nat) + units(f, key);
    let high = units(f, key) + units(f, key + 1);
    lemma_compare_scaled(low, den, n, by);
    lemma_compare_scaled(high, den, n, by);
}

proof fn lemma_compare_scaled(border: nat, den: nat, num: nat, by: nat)
    requires
        by > 0,
    ensures
        border * (den * by) < 2 * (num * by) <==> border * den < 2 * num,
        border * (den * by) == 2 * (num * by) <==> border * den == 2 * num,
        2 * (num * by) < border * (den * by) <==> 2 * num < border * den,
{
    let a = border * den;
    let b = 2 * num;
    assert(border * (den * by) == a * by) by (nonlinear_arith)
        requires
            a == border * den,
    ;
    assert(2 * (num * by) == b * by) by (nonlinear_arith)
        requires
            b == 2 * num,
    ;
    assert(a * by < b * by <==> a < b) by (nonlinear_arith)
        requires
            by > 0,
    ;
    assert(b * by < a * by <==> b < a) by (nonlinear_arith)
        requires
            by > 0,
    ;
}

proof fn lemma_rounded_nearest(f: Format, negative: bool, num: nat, den: nat)
    requires
        f.wf(),
        den > 0,
    ensures
        is_nearest(
            f,
            if negative {
                -(num as int)
            } else {
                num as int
            },
            den,
            nearest(f, negative, num, den),
        ),
        nearest(f, negative, num, den).key <= f.infinity,
{
    law_rounding_is_total(f, num, den);
}

pub proof fn lemma_added_nearest(f: Format, x: Signed, y: Signed)
    requires
        f.wf(),
        x.is_finite(f),
        y.is_finite(f),
    ensures
        is_nearest(f, x.value(f) + y.value(f), 1, added(f, x, y)),
        added(f, x, y).key <= f.infinity,
{
    let s = x.value(f) + y.value(f);
    lemma_rounded_nearest(f, false, s as nat, 1);
    lemma_rounded_nearest(f, true, (-s) as nat, 1);
    lemma_added_rank(f, x, y);
    lemma_rounded_rank(f, s, s, 1);
    law_rounding_is_total(f, 0, 1);
}

pub proof fn lemma_divided_nearest(f: Format, x: Signed, y: Signed)
    requires
        f.wf(),
        x.is_finite(f),
        y.is_finite(f),
        y.key > 0,
        !y.negative,
    ensures
        units(f, y.key as nat) > 0,
        is_nearest(f, x.value(f) * pow2(f.scale as nat), units(f, y.key as nat), divided(f, x, y)),
        divided(f, x, y).key <= f.infinity,
{
    let ux = units(f, x.key as nat);
    let w = pow2(f.scale as nat);
    lemma_divided_rank(f, x, y);
    lemma_rounded_nearest(f, x.negative, ux * w, units(f, y.key as nat));
    assert((-(ux as int)) * w == -(ux * w)) by (nonlinear_arith);
}

pub proof fn lemma_multiplied_nearest(f: Format, x: Signed, y: Signed)
    requires
        f.wf(),
        x.is_finite(f),
        y.is_finite(f),
    ensures
        is_nearest(f, x.value(f) * y.value(f), pow2(f.scale as nat), multiplied(f, x, y)),
        multiplied(f, x, y).key <= f.infinity,
{
    let ux = units(f, x.key as nat);
    let uy = units(f, y.key as nat);
    lemma_pow2_pos(f.scale as nat);
    lemma_rounded_nearest(f, x.negative != y.negative, ux * uy, pow2(f.scale as nat));
    assert((-(ux as int)) * (uy as int) == -(ux * uy)) by (nonlinear_arith);
    assert((ux as int) * (-(uy as int)) == -(ux * uy)) by (nonlinear_arith);
    assert((-(ux as int)) * (-(uy as int)) == ux * uy) by (nonlinear_arith);
}

proof fn lemma_packed32(x: Signed)
    requires
        x.key <= binary32().infinity,
    ensures
        F32::of(x).signed() == x,
{
}

proof fn lemma_packed64(x: Signed)
    requires
        x.key <= binary64().infinity,
    ensures
        F64::of(x).signed() == x,
{
}

/// A difference is the number nearest to the exact difference.
pub proof fn law_minus32(x: F32, y: F32)
    requires
        x.is_finite(),
        y.is_finite(),
    ensures
        x.minus(y).is(x.value() - y.value(), 1),
{
    reveal(F32::value);
    reveal(F32::is);
    lemma_formats();
    let b = opposite(y.signed());
    assert(b.value(binary32()) == -y.value());
    lemma_added_nearest(binary32(), x.signed(), b);
    lemma_packed32(added(binary32(), x.signed(), b));
}

pub proof fn law_minus64(x: F64, y: F64)
    requires
        x.is_finite(),
        y.is_finite(),
    ensures
        x.minus(y).is(x.value() - y.value(), 1),
{
    reveal(F64::value);
    reveal(F64::is);
    lemma_formats();
    let b = opposite(y.signed());
    assert(b.value(binary64()) == -y.value());
    lemma_added_nearest(binary64(), x.signed(), b);
    lemma_packed64(added(binary64(), x.signed(), b));
}

/// A sum is the number nearest to the exact sum.
pub proof fn law_plus64(x: F64, y: F64)
    requires
        x.is_finite(),
        y.is_finite(),
    ensures
        x.plus(y).is(x.value() + y.value(), 1),
{
    reveal(F64::value);
    reveal(F64::is);
    lemma_formats();
    lemma_added_nearest(binary64(), x.signed(), y.signed());
    lemma_packed64(added(binary64(), x.signed(), y.signed()));
}

/// A product is the number nearest to the exact product.
pub proof fn law_times32(x: F32, y: F32)
    requires
        x.is_finite(),
        y.is_finite(),
    ensures
        x.times(y).is(x.value() * y.value(), pow2(149)),
{
    reveal(F32::value);
    reveal(F32::is);
    lemma_formats();
    lemma_multiplied_nearest(binary32(), x.signed(), y.signed());
    lemma_packed32(multiplied(binary32(), x.signed(), y.signed()));
}

pub proof fn law_times64(x: F64, y: F64)
    requires
        x.is_finite(),
        y.is_finite(),
    ensures
        x.times(y).is(x.value() * y.value(), pow2(1074)),
{
    reveal(F64::value);
    reveal(F64::is);
    lemma_formats();
    lemma_multiplied_nearest(binary64(), x.signed(), y.signed());
    lemma_packed64(multiplied(binary64(), x.signed(), y.signed()));
}

/// A quotient by a positive number is the number nearest to the exact quotient.
pub proof fn law_over32(x: F32, y: F32)
    requires
        x.is_finite(),
        y.is_finite(),
        y.value() > 0,
    ensures
        x.over(y).is(x.value() * pow2(149), y.value() as nat),
{
    reveal(F32::value);
    reveal(F32::is);
    lemma_formats();
    lemma_positive(binary32(), y.signed());
    lemma_divided_nearest(binary32(), x.signed(), y.signed());
    lemma_packed32(divided(binary32(), x.signed(), y.signed()));
}

pub proof fn law_over64(x: F64, y: F64)
    requires
        x.is_finite(),
        y.is_finite(),
        y.value() > 0,
    ensures
        x.over(y).is(x.value() * pow2(1074), y.value() as nat),
{
    reveal(F64::value);
    reveal(F64::is);
    lemma_formats();
    lemma_positive(binary64(), y.signed());
    lemma_divided_nearest(binary64(), x.signed(), y.signed());
    lemma_packed64(divided(binary64(), x.signed(), y.signed()));
}

proof fn lemma_positive(f: Format, x: Signed)
    requires
        f.wf(),
        x.value(f) > 0,
    ensures
        x.key > 0,
        !x.negative,
{
    law_order_is_of_values(f, Signed { negative: false, key: 0 }, x);
    lemma_zero_value(f);
}

proof fn lemma_zero_value(f: Format)
    requires
        f.wf(),
    ensures
        units(f, 0) == 0,
{
    crate::float::model::lemma_hidden(f);
}

/// A whole number becomes the number nearest to it.
pub proof fn law_from_whole32(n: u64)
    ensures
        F32::from_whole(n).is(n * pow2(149), 1),
        F32::from_whole(n).is_finite(),
{
    reveal(F32::is);
    lemma_formats();
    crate::float::law_whole_is_finite(n);
    lemma_rounded_nearest(binary32(), false, n as nat * pow2(149), 1);
}

pub proof fn law_from_whole64(n: u64)
    ensures
        F64::from_whole(n).is(n * pow2(1074), 1),
        F64::from_whole(n).is_finite(),
{
    reveal(F64::is);
    lemma_formats();
    crate::float::law_whole_is_finite(n);
    lemma_rounded_nearest(binary64(), false, n as nat * pow2(1074), 1);
}

pub proof fn law_from_signed32(n: i32)
    ensures
        F32::from_signed(n).is(n * pow2(149), 1),
        F32::from_signed(n).is_finite(),
{
    reveal(F32::is);
    let m = (if n < 0 {
        -(n as int)
    } else {
        n as int
    }) as nat;
    lemma_formats();
    crate::float::lemma_whole_is_finite(binary32(), 254, m);
    lemma_rounded_nearest(binary32(), n < 0, m * pow2(149), 1);
    assert((-(n as int)) * pow2(149) == -(n * pow2(149))) by (nonlinear_arith);
}

pub proof fn law_from_signed64(n: i32)
    ensures
        F64::from_signed(n).is(n * pow2(1074), 1),
        F64::from_signed(n).is_finite(),
{
    reveal(F64::is);
    let m = (if n < 0 {
        -(n as int)
    } else {
        n as int
    }) as nat;
    lemma_formats();
    crate::float::lemma_whole_is_finite(binary64(), 2046, m);
    lemma_rounded_nearest(binary64(), n < 0, m * pow2(1074), 1);
    assert((-(n as int)) * pow2(1074) == -(n * pow2(1074))) by (nonlinear_arith);
}

/// A number narrowed is the number of the narrower format nearest to it; one of its units is two
/// to the power of 925 of the wider format's.
pub proof fn law_narrow(x: F64)
    requires
        x.is_finite(),
    ensures
        x.narrow().is(x.value(), pow2(925)),
{
    reveal(F64::value);
    reveal(F32::is);
    lemma_formats();
    lemma_pow2_pos(925);
    lemma_rounded_nearest(
        binary32(),
        x.signed().negative,
        units(binary64(), x.signed().key as nat),
        pow2(925),
    );
}

/// The numbers that the rules are made of.
pub proof fn lemma_constants()
    ensures
        (F32 { bits: 0 }).value() == 0,
        (F32 { bits: 0x3f80_0000 }).value() == pow2(149),
        (F32 { bits: 0x42c8_0000 }).value() == 100 * pow2(149),
        (F32 { bits: 0x447a_0000 }).value() == 1000 * pow2(149),
        (F64 { bits: 0 }).value() == 0,
        (F64 { bits: 0x3ff0_0000_0000_0000 }).value() == pow2(1074),
        (F64 { bits: 0x4059_0000_0000_0000 }).value() == 100 * pow2(1074),
        (F64 { bits: 0x408f_4000_0000_0000 }).value() == 1000 * pow2(1074),
        (F64 { bits: 0xbff0_0000_0000_0000 }).value() == -pow2(1074),
        8 * (F64 { bits: 0x3fec_0000_0000_0000 }).value() == 7 * pow2(1074),
        8 * (F64 { bits: 0x3fc0_0000_0000_0000 }).value() == pow2(1074),
{
    reveal(F32::value);
    reveal(F64::value);
    lemma_formats();
    lemma_zero_value(binary32());
    lemma_zero_value(binary64());
    lemma2_to64();
    vstd::arithmetic::power2::lemma2_to64_rest();
    let f = binary32();
    let g = binary64();
    lemma_units_at(f, 126, 0x80_0000);
    lemma_pow2_adds(23, 126);
    lemma_units_at(f, 132, 0xc8_0000);
    lemma_pow2_adds(17, 132);
    lemma_times(0xc8_0000, 100, 0x2_0000, pow2(132), pow2(149));
    lemma_units_at(f, 135, 0xfa_0000);
    lemma_pow2_adds(14, 135);
    lemma_times(0xfa_0000, 1000, 0x4000, pow2(135), pow2(149));
    lemma_units_at(g, 1022, 0x10_0000_0000_0000);
    lemma_pow2_adds(52, 1022);
    lemma_units_at(g, 1028, 0x19_0000_0000_0000);
    lemma_pow2_adds(46, 1028);
    lemma_times(0x19_0000_0000_0000, 100, 0x4000_0000_0000, pow2(1028), pow2(1074));
    lemma_units_at(g, 1031, 0x1f_4000_0000_0000);
    lemma_pow2_adds(43, 1031);
    lemma_times(0x1f_4000_0000_0000, 1000, 0x800_0000_0000, pow2(1031), pow2(1074));
    lemma_units_at(g, 1021, 0x1c_0000_0000_0000);
    lemma_pow2_adds(53, 1021);
    lemma_eighths(0x1c_0000_0000_0000, 7, 0x20_0000_0000_0000, pow2(1021), pow2(1074));
    lemma_units_at(g, 1019, 0x10_0000_0000_0000);
    lemma_pow2_adds(55, 1019);
    lemma_eighths(0x10_0000_0000_0000, 1, 0x80_0000_0000_0000, pow2(1019), pow2(1074));
    assert(pow2(17) == 0x2_0000 && pow2(14) == 0x4000 && pow2(46) == 0x4000_0000_0000 && pow2(43)
        == 0x800_0000_0000 && pow2(53) == 0x20_0000_0000_0000 && pow2(55) == 0x80_0000_0000_0000
        && pow2(52) == 0x10_0000_0000_0000 && pow2(23) == 0x80_0000);
}

proof fn lemma_times(m: nat, n: nat, k: nat, p: nat, q: nat)
    requires
        m == n * k,
        q == k * p,
    ensures
        m * p == n * q,
{
    assert((n * k) * p == n * (k * p)) by (nonlinear_arith);
}

proof fn lemma_eighths(m: nat, n: nat, k: nat, p: nat, q: nat)
    requires
        8 * m == n * k,
        q == k * p,
    ensures
        8 * (m * p) == n * q,
{
    assert(8 * (m * p) == (8 * m) * p) by (nonlinear_arith);
    assert((n * k) * p == n * (k * p)) by (nonlinear_arith);
}

/// A nearest number is known by what it is nearest to: there are no two but for the sign of zero.
pub proof fn law_nearest_is_one(f: Format, num: int, den: nat, x: Signed, y: Signed)
    requires
        f.wf(),
        den > 0,
        is_nearest(f, num, den, x),
        is_nearest(f, num, den, y),
    ensures
        x.rank() == y.rank(),
{
    let n = (if num >= 0 {
        num
    } else {
        -num
    }) as nat;
    lemma_round_is(f, n, den, x.key as nat);
    lemma_round_is(f, n, den, y.key as nat);
    if num == 0 {
        lemma_rounded_rank(f, 0, 0, den);
    }
}

/// What nearness of a number says of its parts.
pub proof fn lemma_is32(x: F32, num: int, den: nat)
    ensures
        x.is(num, den) <==> is_nearest(binary32(), num, den, x.signed()),
{
    reveal(F32::is);
}

pub proof fn lemma_is64(x: F64, num: int, den: nat)
    ensures
        x.is(num, den) <==> is_nearest(binary64(), num, den, x.signed()),
{
    reveal(F64::is);
}

/// Order and value say the same of numbers that are not NaN.
pub proof fn lemma_order32(x: F32, y: F32)
    requires
        !x.is_nan(),
        !y.is_nan(),
    ensures
        x.lt(y) <==> x.value() < y.value(),
        x.at_least(y) <==> x.value() >= y.value(),
        (F32 { bits: 0 }).value() == 0,
        (F32 { bits: 0x3f80_0000 }).value() == pow2(149),
{
    reveal(F32::value);
    lemma_formats();
    lemma_constants();
    law_order_is_of_values(binary32(), x.signed(), y.signed());
    law_order_is_of_values(binary32(), y.signed(), x.signed());
}

pub proof fn lemma_order64(x: F64, y: F64)
    requires
        !x.is_nan(),
        !y.is_nan(),
    ensures
        x.lt(y) <==> x.value() < y.value(),
        x.at_least(y) <==> x.value() >= y.value(),
        (F64 { bits: 0 }).value() == 0,
        (F64 { bits: 0x3ff0_0000_0000_0000 }).value() == pow2(1074),
{
    reveal(F64::value);
    lemma_formats();
    lemma_constants();
    law_order_is_of_values(binary64(), x.signed(), y.signed());
    law_order_is_of_values(binary64(), y.signed(), x.signed());
}

/// A ratio and the same ratio with both sides multiplied are near to the same numbers.
pub proof fn lemma_scaled32(x: F32, num: int, den: nat, by: nat)
    requires
        by > 0,
    ensures
        x.is(num, den) <==> x.is(num * by, den * by),
{
    reveal(F32::is);
    lemma_scaled(binary32(), num, den, by, x.signed());
}

pub proof fn lemma_scaled64(x: F64, num: int, den: nat, by: nat)
    requires
        by > 0,
    ensures
        x.is(num, den) <==> x.is(num * by, den * by),
{
    reveal(F64::is);
    lemma_scaled(binary64(), num, den, by, x.signed());
}

/// A number that is nearest to the value of a number is that number, but for the sign of zero.
pub proof fn lemma_exact32(x: F32, y: F32, num: int, den: nat)
    requires
        x.is(num, den),
        den > 0,
        y.is_finite(),
        num == y.value() * den,
    ensures
        x.is_finite(),
        x.value() == y.value(),
{
    let f = binary32();
    reveal(F32::is);
    reveal(F32::value);
    lemma_formats();
    lemma_exact(f, x.signed(), y.signed(), num, den);
}

pub proof fn lemma_exact64(x: F64, y: F64, num: int, den: nat)
    requires
        x.is(num, den),
        den > 0,
        y.is_finite(),
        num == y.value() * den,
    ensures
        x.is_finite(),
        x.value() == y.value(),
{
    let f = binary64();
    reveal(F64::is);
    reveal(F64::value);
    lemma_formats();
    lemma_exact(f, x.signed(), y.signed(), num, den);
}

proof fn lemma_exact(f: Format, x: Signed, y: Signed, num: int, den: nat)
    requires
        f.wf(),
        is_nearest(f, num, den, x),
        den > 0,
        y.is_finite(f),
        num == y.value(f) * den,
    ensures
        x.is_finite(f),
        x.value(f) == y.value(f),
{
    let u = units(f, y.key as nat);
    let n = (if num >= 0 {
        num
    } else {
        -num
    }) as nat;
    assert((-(u as int)) * den == -(u * den)) by (nonlinear_arith);
    assert(u * den >= 0) by (nonlinear_arith);
    assert(u * den == 0 ==> u == 0) by (nonlinear_arith)
        requires
            den > 0,
    ;
    assert(n == u * den);
    lemma_round_exact(f, n, den, y.key as nat);
    lemma_round_is(f, n, den, x.key as nat);
    if u == 0 {
        lemma_zero_value(f);
        if y.key > 0 {
            lemma_units_increase(f, 0, y.key as nat);
        }
    }
}

} // verus!
