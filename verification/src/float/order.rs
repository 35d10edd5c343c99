//! How the arithmetic keeps the order of numbers.

use crate::float::model::{
    hidden, law_rounding_is_monotone, law_rounding_is_total, lemma_round_exact, lemma_units_at,
    lemma_units_increase, round, units,
};
use crate::float::signed::{
    law_order_is_of_values, lemma_added_rank, lemma_divided_rank, lemma_rounded_rank, nearest,
    opposite, rounded_rank,
};
use crate::float::{binary32, binary64, lemma_formats, lemma_whole_is_finite, F32, F64};
use vstd::arithmetic::power2::{lemma2_to64, lemma_pow2_adds, lemma_pow2_pos, pow2};
use vstd::prelude::*;

verus! {

/// What is subtracted from a greater number leaves no less.
pub proof fn law_minus_follows_its_first(x1: F32, x2: F32, y: F32)
    requires
        x1.is_finite(),
        x2.is_finite(),
        y.is_finite(),
        x2.at_least(x1),
    ensures
        x2.minus(y).at_least(x1.minus(y)),
{
    let f = binary32();
    let b = opposite(y.signed());
    lemma_formats();
    law_order_is_of_values(f, x1.signed(), x2.signed());
    lemma_added_rank(f, x1.signed(), b);
    lemma_added_rank(f, x2.signed(), b);
    lemma_rounded_rank(
        f,
        x1.signed().value(f) + b.value(f),
        x2.signed().value(f) + b.value(f),
        1,
    );
}

/// To subtract a greater number leaves no more.
pub proof fn law_minus_falls_with_its_second(x: F32, y1: F32, y2: F32)
    requires
        x.is_finite(),
        y2.at_least(y1),
    ensures
        x.minus(y1).at_least(x.minus(y2)),
{
    let f = binary32();
    let b1 = opposite(y1.signed());
    let b2 = opposite(y2.signed());
    lemma_formats();
    law_order_is_of_values(f, b2, b1);
    if y1.is_finite() {
        lemma_added_rank(f, x.signed(), b1);
        lemma_rounded_rank(f, x.signed().value(f) + b1.value(f), x.signed().value(f) + b1.value(f), 1);
    }
    if y2.is_finite() {
        lemma_added_rank(f, x.signed(), b2);
        lemma_rounded_rank(f, x.signed().value(f) + b2.value(f), x.signed().value(f) + b2.value(f), 1);
    }
    if y1.is_finite() && y2.is_finite() {
        lemma_rounded_rank(
            f,
            x.signed().value(f) + b2.value(f),
            x.signed().value(f) + b1.value(f),
            1,
        );
    }
}

/// A greater number divided by a positive one gives no less.
pub proof fn law_over_follows_its_first(x1: F32, x2: F32, y: F32)
    requires
        x1.is_finite(),
        x2.is_finite(),
        x2.at_least(x1),
        (F32 { bits: 0 }).lt(y),
    ensures
        x2.over(y).at_least(x1.over(y)),
{
    let f = binary32();
    let w = pow2(149);
    lemma_formats();
    law_order_is_of_values(f, x1.signed(), x2.signed());
    if y.is_finite() {
        let v1 = x1.signed().value(f);
        let v2 = x2.signed().value(f);
        lemma_divided_rank(f, x1.signed(), y.signed());
        lemma_divided_rank(f, x2.signed(), y.signed());
        assert(v1 * w <= v2 * w) by (nonlinear_arith)
            requires
                v1 <= v2,
                w >= 0,
        ;
        lemma_rounded_rank(f, v1 * w, v2 * w, units(f, y.signed().key as nat));
    }
}

/// What is finite and not negative, divided by a positive number, is a number and not negative.
pub proof fn law_quotient_is_not_negative(x: F32, y: F32)
    requires
        x.is_finite(),
        !x.signed().negative,
        (F32 { bits: 0 }).lt(y),
    ensures
        x.over(y).at_least(F32 { bits: 0 }),
{
    let f = binary32();
    lemma_formats();
    if y.is_finite() {
        lemma_divided_rank(f, x.signed(), y.signed());
        let num = x.signed().value(f) * pow2(149);
        assert(num >= 0) by (nonlinear_arith)
            requires
                num == x.signed().value(f) * pow2(149),
                x.signed().value(f) >= 0,
        ;
        lemma_rounded_rank(f, 0, num, units(f, y.signed().key as nat));
        lemma_rounded_rank(f, num, num, units(f, y.signed().key as nat));
    }
}

/// A number less one that is no smaller is not above zero.
pub proof fn law_minus_of_no_more_is_not_positive(x: F32, y: F32)
    requires
        y.is_finite(),
        y.at_least(x),
    ensures
        !(F32 { bits: 0 }).lt(x.minus(y)),
{
    let f = binary32();
    let b = opposite(y.signed());
    lemma_formats();
    law_order_is_of_values(f, x.signed(), y.signed());
    if x.is_finite() {
        lemma_added_rank(f, x.signed(), b);
        lemma_rounded_rank(f, x.signed().value(f) + b.value(f), 0, 1);
    }
}

/// Of two numbers cut to the same bounds the greater stays no less.
pub proof fn law_clamped_follows(x1: F32, x2: F32, low: F32, high: F32)
    requires
        x2.at_least(x1),
        high.at_least(low),
    ensures
        x2.clamped(low, high).at_least(x1.clamped(low, high)),
{
}

/// A greater whole number is no smaller as a number of the format.
pub proof fn law_from_whole_follows(n1: u64, n2: u64)
    requires
        n1 <= n2,
    ensures
        F32::from_whole(n2).at_least(F32::from_whole(n1)),
{
    lemma_formats();
    crate::float::law_whole_is_finite(n1);
    crate::float::law_whole_is_finite(n2);
    lemma_multiples(n1 as nat, n2 as nat);
    law_rounding_is_monotone(binary32(), n1 as nat * pow2(149), 1, n2 as nat * pow2(149), 1);
    law_rounding_is_total(binary32(), n1 as nat * pow2(149), 1);
    law_rounding_is_total(binary32(), n2 as nat * pow2(149), 1);
}

proof fn lemma_multiples(n1: nat, n2: nat)
    requires
        n1 <= n2,
    ensures
        n1 * pow2(149) * 1 <= n2 * pow2(149) * 1,
{
    let w = pow2(149);
    assert(n1 * w * 1 <= n2 * w * 1) by (nonlinear_arith)
        requires
            n1 <= n2,
    ;
}

spec fn magnitude_of(n: i32) -> nat {
    (if n < 0 {
        -(n as int)
    } else {
        n as int
    }) as nat
}

proof fn lemma_from_signed(n: i32)
    ensures
        F32::from_signed(n).is_finite(),
        F32::from_signed(n).signed() == nearest(
            binary32(),
            n < 0,
            magnitude_of(n) * pow2(149),
            1,
        ),
        round(binary32(), magnitude_of(n) * pow2(149), 1) < 0x7f80_0000,
{
    lemma_formats();
    lemma_whole_is_finite(binary32(), 254, magnitude_of(n));
}

/// The same of signed whole numbers, which are always finite.
pub proof fn law_from_signed_follows(n1: i32, n2: i32)
    requires
        n1 <= n2,
    ensures
        F32::from_signed(n1).is_finite(),
        F32::from_signed(n2).is_finite(),
        F32::from_signed(n2).at_least(F32::from_signed(n1)),
{
    let f = binary32();
    lemma_formats();
    lemma_from_signed(n1);
    lemma_from_signed(n2);
    if n1 >= 0 {
        lemma_multiples(magnitude_of(n1), magnitude_of(n2));
        law_rounding_is_monotone(
            f,
            magnitude_of(n1) * pow2(149),
            1,
            magnitude_of(n2) * pow2(149),
            1,
        );
    } else if n2 < 0 {
        lemma_multiples(magnitude_of(n2), magnitude_of(n1));
        law_rounding_is_monotone(
            f,
            magnitude_of(n2) * pow2(149),
            1,
            magnitude_of(n1) * pow2(149),
            1,
        );
    }
}

/// A thousandth of a signed whole number is finite, and far below the greatest number.
pub proof fn lemma_thousandth(n: i32)
    ensures
        ({
            let x = F32::from_signed(n).over(F32 { bits: 0x447a_0000 });
            &&& x.is_finite()
            &&& units(binary32(), x.signed().key as nat) <= pow2(180)
        }),
{
    let f = binary32();
    let w = pow2(149);
    let top = 0x4f00_0000nat;
    let whole = F32::from_signed(n).signed();
    lemma_formats();
    lemma_from_signed(n);
    lemma2_to64();
    vstd::arithmetic::power2::lemma2_to64_rest();
    lemma_pow2_pos(149);
    // Two to the power of 31 is the number at `top`.
    lemma_units_at(f, 157, 0x80_0000);
    lemma_pow2_adds(23, 157);
    lemma_pow2_adds(31, 149);
    assert(157 * hidden(f) + 0x80_0000 == top);
    lemma_round_exact(f, pow2(180), 1, top);
    lemma_multiples(magnitude_of(n), 0x8000_0000);
    law_rounding_is_monotone(f, magnitude_of(n) * w, 1, pow2(180), 1);
    // A thousand is the number at its key.
    lemma_units_at(f, 135, 0xfa_0000);
    lemma_pow2_adds(14, 135);
    assert(135 * hidden(f) + 0xfa_0000 == 0x447a_0000);
    let thousand = units(f, 0x447a_0000);
    assert(thousand == 1000 * w) by (nonlinear_arith)
        requires
            thousand == 0xfa_0000 * pow2(135),
            w == pow2(14) * pow2(135),
            pow2(14) == 16384,
    ;
    // Dividing by it does not pass the number itself.
    let u = units(f, whole.key as nat);
    assert((u * w) * 1 <= u * thousand) by (nonlinear_arith)
        requires
            thousand == 1000 * w,
    ;
    law_rounding_is_monotone(f, u * w, thousand, u, 1);
    lemma_round_exact(f, u, 1, whole.key as nat);
    law_rounding_is_total(f, u * w, thousand);
    let key = round(f, u * w, thousand);
    if key < top {
        lemma_units_increase(f, key, top);
    }
}

/// A number that is far below the greatest one, less any finite number, is finite.
pub proof fn lemma_small_minus_is_finite(x: F32, y: F32)
    requires
        x.is_finite(),
        y.is_finite(),
        units(binary32(), x.signed().key as nat) <= pow2(180),
    ensures
        x.minus(y).is_finite(),
{
    let f = binary32();
    let g = pow2(253);
    let last = (f.infinity - 1) as nat;
    let a = x.signed();
    let b = opposite(y.signed());
    let s = a.value(f) + b.value(f);
    lemma_formats();
    lemma_units_at(f, 253, 0xff_ffff);
    lemma_units_at(f, 254, 0x80_0000);
    lemma2_to64();
    lemma_pow2_adds(1, 253);
    lemma_pow2_adds(73, 180);
    assert(253 * hidden(f) + 0xff_ffff == last);
    assert(254 * hidden(f) + 0x80_0000 == f.infinity);
    vstd::arithmetic::power2::lemma_pow2_strictly_increases(2, 73);
    lemma_pow2_pos(180);
    assert(4 * pow2(180) < g) by (nonlinear_arith)
        requires
            g == pow2(73) * pow2(180),
            pow2(73) > 4,
            pow2(180) > 0,
    ;
    assert(units(f, f.infinity as nat) == 0x100_0000 * g) by (nonlinear_arith)
        requires
            units(f, f.infinity as nat) == 0x80_0000 * (2 * g),
    ;
    if (b.key as nat) < last {
        lemma_units_increase(f, b.key as nat, last);
    }
    let num = (if s >= 0 {
        s
    } else {
        -s
    }) as nat;
    assert(num <= pow2(180) + 0xff_ffff * g);
    law_rounding_is_total(f, num, 1);
    let key = round(f, num, 1);
    if key == f.infinity {
        let border = (units(f, (key - 1) as nat) + units(f, key)) * 1;
        assert(border == 0x1ff_ffff * g);
        assert(border <= 2 * num);
    }
    lemma_added_rank(f, a, b);
}

/// What is subtracted from a greater number of the wider format leaves no less.
pub proof fn law_minus64_follows_its_first(x1: F64, x2: F64, y: F64)
    requires
        x1.is_finite(),
        x2.is_finite(),
        y.is_finite(),
        x2.at_least(x1),
    ensures
        x2.minus(y).at_least(x1.minus(y)),
{
    let f = binary64();
    let b = opposite(y.signed());
    lemma_formats();
    law_order_is_of_values(f, x1.signed(), x2.signed());
    lemma_added_rank(f, x1.signed(), b);
    lemma_added_rank(f, x2.signed(), b);
    lemma_rounded_rank(
        f,
        x1.signed().value(f) + b.value(f),
        x2.signed().value(f) + b.value(f),
        1,
    );
}

/// To subtract a greater number of the wider format leaves no more.
pub proof fn law_minus64_falls_with_its_second(x: F64, y1: F64, y2: F64)
    requires
        x.is_finite(),
        y2.at_least(y1),
    ensures
        x.minus(y1).at_least(x.minus(y2)),
{
    let f = binary64();
    let b1 = opposite(y1.signed());
    let b2 = opposite(y2.signed());
    lemma_formats();
    law_order_is_of_values(f, b2, b1);
    if y1.is_finite() {
        lemma_added_rank(f, x.signed(), b1);
        lemma_rounded_rank(f, x.signed().value(f) + b1.value(f), x.signed().value(f) + b1.value(f), 1);
    }
    if y2.is_finite() {
        lemma_added_rank(f, x.signed(), b2);
        lemma_rounded_rank(f, x.signed().value(f) + b2.value(f), x.signed().value(f) + b2.value(f), 1);
    }
    if y1.is_finite() && y2.is_finite() {
        lemma_rounded_rank(
            f,
            x.signed().value(f) + b2.value(f),
            x.signed().value(f) + b1.value(f),
            1,
        );
    }
}

/// A greater number of the wider format divided by a positive finite one gives no less, and
/// keeps to its side of zero.
pub proof fn law_over64_follows_its_first(x1: F64, x2: F64, y: F64)
    requires
        x2.at_least(x1),
        (F64 { bits: 0 }).lt(y),
        y.is_finite(),
    ensures
        x2.over(y).at_least(x1.over(y)),
        (F64 { bits: 0 }).at_least(x1) ==> (F64 { bits: 0 }).at_least(x1.over(y)),
        x1.at_least(F64 { bits: 0 }) ==> x1.over(y).at_least(F64 { bits: 0 }),
{
    let f = binary64();
    let w = pow2(1074);
    lemma_formats();
    law_order_is_of_values(f, x1.signed(), x2.signed());
    lemma_pow2_pos(1074);
    lemma_over64_rank(x1, y);
    lemma_over64_rank(x2, y);
    let uy = units(f, y.signed().key as nat);
    if x1.is_finite() && x2.is_finite() {
        let v1 = x1.signed().value(f);
        let v2 = x2.signed().value(f);
        assert(v1 * w <= v2 * w) by (nonlinear_arith)
            requires
                v1 <= v2,
                w >= 0,
        ;
        lemma_rounded_rank(f, v1 * w, v2 * w, uy);
    }
}

proof fn lemma_over64_rank(x: F64, y: F64)
    requires
        !x.is_nan(),
        (F64 { bits: 0 }).lt(y),
        y.is_finite(),
    ensures
        !x.over(y).is_nan(),
        units(binary64(), y.signed().key as nat) > 0,
        x.is_finite() ==> x.over(y).signed().rank() == rounded_rank(
            binary64(),
            x.signed().value(binary64()) * pow2(1074),
            units(binary64(), y.signed().key as nat),
        ),
        !x.is_finite() ==> x.over(y).signed().rank() == x.signed().rank(),
        -(binary64().infinity as int) <= x.over(y).signed().rank() <= binary64().infinity,
        x.signed().rank() <= 0 ==> x.over(y).signed().rank() <= 0,
        x.signed().rank() >= 0 ==> x.over(y).signed().rank() >= 0,
{
    let f = binary64();
    let w = pow2(1074);
    let v = x.signed().value(f);
    let uy = units(f, y.signed().key as nat);
    lemma_formats();
    lemma_pow2_pos(1074);
    lemma_units_increase(f, 0, y.signed().key as nat);
    if x.is_finite() {
        let zero = crate::float::signed::Signed { negative: false, key: 0 };
        lemma_divided_rank(f, x.signed(), y.signed());
        law_order_is_of_values(f, x.signed(), zero);
        lemma_units_at(f, 0, 0);
        assert(v <= 0 ==> v * w <= 0) by (nonlinear_arith)
            requires
                w > 0,
        ;
        assert(v >= 0 ==> v * w >= 0) by (nonlinear_arith)
            requires
                w > 0,
        ;
        lemma_rounded_rank(f, v * w, v * w, uy);
        if v * w <= 0 {
            lemma_rounded_rank(f, v * w, 0, uy);
        }
        if v * w >= 0 {
            lemma_rounded_rank(f, 0, v * w, uy);
        }
    }
}

} // verus!
