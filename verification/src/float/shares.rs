//! Quotients, differences and clamps as they serve for shares between zero and one.

use crate::float::meaning::{
    law_minus32, law_minus64, law_over32, law_over64, lemma_constants, lemma_exact32, lemma_exact64,
    lemma_order32, lemma_order64,
};
use crate::float::order::{
    law_minus64_falls_with_its_second, law_minus_follows_its_first,
    law_over64_follows_its_first, law_over_follows_its_first,
};
use crate::float::model::lemma_units_at;
use crate::float::{binary32, law_numbers_stay_numbers, lemma_formats, F32, F64};
use vstd::arithmetic::power2::{lemma_pow2_adds, lemma_pow2_pos, pow2};
use vstd::prelude::*;

verus! {

proof fn lemma_number_over(x: F32, y: F32)
    requires
        x.is_finite(),
        y.is_finite(),
        y.value() > 0,
    ensures
        (F32 { bits: 0 }).lt(y),
        !x.over(y).is_nan(),
{
    lemma_formats();
    lemma_order32(F32 { bits: 0 }, y);
    law_numbers_stay_numbers(x, y);
}

proof fn lemma_none_over(x: F32, y: F32)
    requires
        x.is_finite(),
        x.value() == 0,
        y.is_finite(),
        y.value() > 0,
    ensures
        x.over(y).is_finite(),
        x.over(y).value() == 0,
{
    law_over32(x, y);
    assert(0 * pow2(149) == 0);
    assert(0 * y.value() == 0);
    lemma_exact32(x.over(y), x, 0, y.value() as nat);
}

proof fn lemma_self_over(y: F32)
    requires
        y.is_finite(),
        y.value() > 0,
    ensures
        y.over(y).is_finite(),
        y.over(y).value() == pow2(149),
{
    let one = F32 { bits: 0x3f80_0000 };
    law_over32(y, y);
    lemma_constants();
    assert(y.value() * pow2(149) == pow2(149) * y.value()) by (nonlinear_arith);
    lemma_exact32(y.over(y), one, y.value() * pow2(149), y.value() as nat);
}

/// A quotient by a positive number keeps to its side of zero, and to its side of one.
pub proof fn law_quotient_keeps_its_side(x: F32, y: F32)
    requires
        x.is_finite(),
        y.is_finite(),
        y.value() > 0,
    ensures
        !x.over(y).is_nan(),
        x.over(y).is(x.value() * pow2(149), y.value() as nat),
        x.value() <= 0 ==> x.over(y).value() <= 0,
        x.value() >= 0 ==> x.over(y).value() >= 0,
        x.value() <= y.value() ==> x.over(y).value() <= pow2(149),
        x.value() >= y.value() ==> x.over(y).value() >= pow2(149),
{
    lemma_number_over(x, y);
    law_over32(x, y);
    lemma_side_of_zero(x, y);
    lemma_side_of_one(x, y);
}

proof fn lemma_side_of_zero(x: F32, y: F32)
    requires
        x.is_finite(),
        y.is_finite(),
        y.value() > 0,
    ensures
        x.value() <= 0 ==> x.over(y).value() <= 0,
        x.value() >= 0 ==> x.over(y).value() >= 0,
{
    let zero = F32 { bits: 0 };
    lemma_number_over(x, y);
    lemma_constants();
    lemma_none_over(zero, y);
    lemma_order32(zero, x);
    lemma_order32(x, zero);
    lemma_order32(zero.over(y), x.over(y));
    lemma_order32(x.over(y), zero.over(y));
    if x.value() <= 0 {
        law_over_follows_its_first(x, zero, y);
    }
    if x.value() >= 0 {
        law_over_follows_its_first(zero, x, y);
    }
}

proof fn lemma_side_of_one(x: F32, y: F32)
    requires
        x.is_finite(),
        y.is_finite(),
        y.value() > 0,
    ensures
        x.value() <= y.value() ==> x.over(y).value() <= pow2(149),
        x.value() >= y.value() ==> x.over(y).value() >= pow2(149),
{
    lemma_number_over(x, y);
    lemma_self_over(y);
    lemma_order32(y, x);
    lemma_order32(x, y);
    lemma_order32(y.over(y), x.over(y));
    lemma_order32(x.over(y), y.over(y));
    if x.value() <= y.value() {
        law_over_follows_its_first(x, y, y);
    }
    if x.value() >= y.value() {
        law_over_follows_its_first(y, x, y);
    }
}

/// A difference keeps to its side of zero, and to subtract nothing changes nothing.
pub proof fn law_difference_keeps_its_side(x: F32, y: F32)
    requires
        x.is_finite(),
        y.is_finite(),
    ensures
        !x.minus(y).is_nan(),
        x.minus(y).is(x.value() - y.value(), 1),
        x.value() <= y.value() ==> x.minus(y).value() <= 0,
        x.value() >= y.value() ==> x.minus(y).value() >= 0,
        y.value() == 0 ==> x.minus(y).value() == x.value(),
{
    law_numbers_stay_numbers(x, y);
    law_minus32(x, y);
    lemma_difference_side(x, y);
    if y.value() == 0 {
        lemma_exact32(x.minus(y), x, x.value(), 1);
    }
}

proof fn lemma_difference_side(x: F32, y: F32)
    requires
        x.is_finite(),
        y.is_finite(),
    ensures
        x.value() <= y.value() ==> x.minus(y).value() <= 0,
        x.value() >= y.value() ==> x.minus(y).value() >= 0,
{
    let zero = F32 { bits: 0 };
    law_numbers_stay_numbers(x, y);
    law_minus32(y, y);
    lemma_constants();
    lemma_exact32(y.minus(y), zero, 0, 1);
    lemma_order32(x, y);
    lemma_order32(y, x);
    lemma_order32(x.minus(y), y.minus(y));
    lemma_order32(y.minus(y), x.minus(y));
    if x.value() <= y.value() {
        law_minus_follows_its_first(x, y, y);
    }
    if x.value() >= y.value() {
        law_minus_follows_its_first(y, x, y);
    }
}

/// What is cut to zero and one is itself in between, and the nearer of the two outside.
pub proof fn law_cut_to_a_share(x: F32)
    requires
        !x.is_nan(),
    ensures
        ({
            let r = x.clamped(F32 { bits: 0 }, F32 { bits: 0x3f80_0000 });
            &&& x.value() <= 0 ==> r.value() == 0
            &&& x.value() >= pow2(149) ==> r.value() == pow2(149)
            &&& 0 <= x.value() <= pow2(149) ==> r == x
        }),
{
    lemma_formats();
    lemma_pow2_pos(149);
    lemma_order32(x, F32 { bits: 0 });
    lemma_order32(F32 { bits: 0x3f80_0000 }, x);
    lemma_order32(x, F32 { bits: 0x3f80_0000 });
}

proof fn lemma_number_over64(x: F64, y: F64)
    requires
        !x.is_nan(),
        y.is_finite(),
        y.value() > 0,
    ensures
        (F64 { bits: 0 }).lt(y),
        !x.over(y).is_nan(),
{
    lemma_formats();
    lemma_order64(F64 { bits: 0 }, y);
    lemma_order64(x, x);
    law_over64_follows_its_first(x, x, y);
}

/// The same of quotients of the wider format.
pub proof fn law_quotient64_keeps_its_side(x: F64, y: F64)
    requires
        x.is_finite(),
        y.is_finite(),
        y.value() > 0,
    ensures
        !x.over(y).is_nan(),
        x.value() == 0 ==> x.over(y).is_finite() && x.over(y).value() == 0,
        x.value() >= y.value() ==> x.over(y).value() >= pow2(1074),
{
    lemma_number_over64(x, y);
    lemma_side_of_one64(x, y);
    law_over64(x, y);
    if x.value() == 0 {
        assert(0 * pow2(1074) == 0);
        assert(0 * y.value() == 0);
        lemma_exact64(x.over(y), x, 0, y.value() as nat);
    }
}

proof fn lemma_self_over64(y: F64)
    requires
        y.is_finite(),
        y.value() > 0,
    ensures
        y.over(y).is_finite(),
        y.over(y).value() == pow2(1074),
{
    let one = F64 { bits: 0x3ff0_0000_0000_0000 };
    law_over64(y, y);
    lemma_constants();
    assert(y.value() * pow2(1074) == pow2(1074) * y.value()) by (nonlinear_arith);
    lemma_exact64(y.over(y), one, y.value() * pow2(1074), y.value() as nat);
}

proof fn lemma_side_of_one64(x: F64, y: F64)
    requires
        x.is_finite(),
        y.is_finite(),
        y.value() > 0,
    ensures
        x.value() >= y.value() ==> x.over(y).value() >= pow2(1074),
{
    lemma_number_over64(x, y);
    lemma_self_over64(y);
    lemma_order64(x, y);
    lemma_order64(x.over(y), y.over(y));
    if x.value() >= y.value() {
        law_over64_follows_its_first(y, x, y);
    }
}

/// One less a number of the wider format: one where that is zero, and not above zero where it is
/// at least one.
pub proof fn law_rest_of_one64(q: F64)
    requires
        !q.is_nan(),
    ensures
        ({
            let d = (F64 { bits: 0x3ff0_0000_0000_0000 }).minus(q);
            &&& !d.is_nan()
            &&& q.is_finite() ==> d.is(pow2(1074) - q.value(), 1)
            &&& q.is_finite() && q.value() == 0 ==> d.value() == pow2(1074)
            &&& q.value() >= pow2(1074) ==> d.value() <= 0
        }),
{
    let one = F64 { bits: 0x3ff0_0000_0000_0000 };
    lemma_formats();
    lemma_constants();
    lemma_order64(q, q);
    law_minus64_falls_with_its_second(one, q, q);
    if q.is_finite() {
        law_minus64(one, q);
        if q.value() == 0 {
            lemma_exact64(one.minus(q), one, pow2(1074) as int, 1);
        }
    }
    if q.value() >= pow2(1074) {
        lemma_rest_of_more64(q);
    }
}

proof fn lemma_rest_of_more64(q: F64)
    requires
        !q.is_nan(),
        q.value() >= pow2(1074),
    ensures
        (F64 { bits: 0x3ff0_0000_0000_0000 }).minus(q).value() <= 0,
{
    let one = F64 { bits: 0x3ff0_0000_0000_0000 };
    let zero = F64 { bits: 0 };
    lemma_formats();
    lemma_constants();
    lemma_order64(q, one);
    law_minus64_falls_with_its_second(one, one, q);
    law_minus64(one, one);
    lemma_exact64(one.minus(one), zero, 0, 1);
    lemma_order64(one.minus(one), one.minus(q));
}

proof fn lemma_fraction(key: nat, exponent: nat, significand: nat, num: nat, den: nat, shift: nat)
    requires
        key == exponent * 0x80_0000 + significand,
        0x80_0000 < significand < 0xff_ffff,
        0 < key,
        exponent < 200,
        exponent + shift == 149,
        (2 * significand - 1) * den < 2 * num * pow2(shift) < (2 * significand + 1) * den,
    ensures
        crate::float::model::rounds_to(binary32(), num * pow2(149), den, key),
{
    let f = binary32();
    let e = pow2(exponent);
    let s = pow2(shift);
    lemma_formats();
    lemma_pow2_pos(exponent);
    lemma_pow2_adds(shift, exponent);
    lemma_units_at(f, exponent, significand);
    lemma_units_at(f, exponent, (significand - 1) as nat);
    lemma_units_at(f, exponent, significand + 1);
    let low = (significand - 1) as nat;
    assert((low * e + significand * e) * den == ((2 * significand - 1) * den) * e)
        by (nonlinear_arith)
        requires
            low == significand - 1,
    ;
    assert((significand * e + (significand + 1) * e) * den == ((2 * significand + 1) * den) * e)
        by (nonlinear_arith);
    assert(2 * (num * pow2(149)) == (2 * num * s) * e) by (nonlinear_arith)
        requires
            pow2(149) == s * e,
    ;
    assert(((2 * significand - 1) * den) * e < (2 * num * s) * e) by (nonlinear_arith)
        requires
            (2 * significand - 1) * den < 2 * num * s,
            e > 0,
    ;
    assert((2 * num * s) * e < ((2 * significand + 1) * den) * e) by (nonlinear_arith)
        requires
            2 * num * s < (2 * significand + 1) * den,
            e > 0,
    ;
}

/// The fractions that the rules are made of: 0.01, 0.03, 0.1 and 0.85.
pub proof fn lemma_fractions()
    ensures
        (F32 { bits: 0x3c23_d70a }).is(pow2(149) as int, 100),
        (F32 { bits: 0x3cf5_c28f }).is((3 * pow2(149)) as int, 100),
        (F32 { bits: 0x3dcc_cccd }).is(pow2(149) as int, 10),
        (F32 { bits: 0x3f59_999a }).is((85 * pow2(149)) as int, 100),
{
    reveal(F32::is);
    lemma_formats();
    lemma_pow2_pos(149);
    vstd::arithmetic::power2::lemma2_to64();
    lemma_fraction(0x3c23_d70a, 119, 0xa3_d70a, 1, 100, 30);
    lemma_fraction(0x3cf5_c28f, 120, 0xf5_c28f, 3, 100, 29);
    lemma_fraction(0x3dcc_cccd, 122, 0xcc_cccd, 1, 10, 27);
    lemma_fraction(0x3f59_999a, 125, 0xd9_999a, 85, 100, 24);
}

} // verus!
