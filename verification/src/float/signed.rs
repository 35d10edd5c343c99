//! Signed numbers of a format, with infinities and what is not a number.

use crate::float::magnitude::{
    difference, narrowed, parts, product, quotient, sum, whole, widened,
};
use crate::float::model::{
    hidden, law_rounding_is_monotone, law_rounding_is_total, lemma_hidden, lemma_round_exact,
    lemma_units_at, lemma_units_increase, round, units, Format,
};
use crate::float::round::{lemma_pow2_mono, lemma_pow2_small, power_of_two};
use vstd::arithmetic::power2::{lemma_pow2_adds, lemma_pow2_pos, lemma_pow2_unfold, pow2};
use vstd::prelude::*;

verus! {

/// A number as its sign and the key of its magnitude.
#[derive(Clone, Copy)]
pub struct Signed {
    pub negative: bool,
    pub key: u64,
}

impl Signed {
    /// What is not a number.
    pub open spec fn is_nan(self, f: Format) -> bool {
        self.key > f.infinity
    }

    pub open spec fn is_infinite(self, f: Format) -> bool {
        self.key == f.infinity
    }

    pub open spec fn is_finite(self, f: Format) -> bool {
        self.key < f.infinity
    }

    /// The key is one that an operation can give.
    pub open spec fn fits(self, f: Format) -> bool {
        self.key <= f.infinity + hidden(f) / 2
    }

    /// The place in the order of numbers. The two zeros share theirs.
    pub open spec fn rank(self) -> int {
        if self.negative {
            -(self.key as int)
        } else {
            self.key as int
        }
    }

    /// The value in units; an infinity counts as the first number past the format.
    pub open spec fn value(self, f: Format) -> int {
        if self.negative {
            -(units(f, self.key as nat) as int)
        } else {
            units(f, self.key as nat) as int
        }
    }
}

/// The result of an operation that has none.
pub open spec fn nan(f: Format) -> Signed {
    Signed { negative: false, key: (f.infinity + hidden(f) / 2) as u64 }
}

/// The number nearest to `num / den` units, with its sign given.
pub open spec fn nearest(f: Format, negative: bool, num: nat, den: nat) -> Signed {
    Signed { negative, key: round(f, num, den) as u64 }
}

pub open spec fn infinity(f: Format, negative: bool) -> Signed {
    Signed { negative, key: f.infinity }
}

pub open spec fn zero(negative: bool) -> Signed {
    Signed { negative, key: 0 }
}

pub open spec fn opposite(x: Signed) -> Signed {
    Signed { negative: !x.negative, key: x.key }
}

/// Addition: the exact sum, rounded once. Opposite infinities have none; an exact zero is
/// positive unless both terms are negative.
pub open spec fn added(f: Format, x: Signed, y: Signed) -> Signed {
    if x.is_nan(f) || y.is_nan(f) {
        nan(f)
    } else if x.is_infinite(f) {
        if y.is_infinite(f) && x.negative != y.negative {
            nan(f)
        } else {
            x
        }
    } else if y.is_infinite(f) {
        y
    } else {
        let s = x.value(f) + y.value(f);
        if s == 0 {
            zero(x.negative && y.negative)
        } else if s > 0 {
            nearest(f, false, s as nat, 1)
        } else {
            nearest(f, true, (-s) as nat, 1)
        }
    }
}

/// Multiplication: the exact product, rounded once.
pub open spec fn multiplied(f: Format, x: Signed, y: Signed) -> Signed {
    let negative = x.negative != y.negative;
    if x.is_nan(f) || y.is_nan(f) {
        nan(f)
    } else if x.is_infinite(f) || y.is_infinite(f) {
        if x.key == 0 || y.key == 0 {
            nan(f)
        } else {
            infinity(f, negative)
        }
    } else {
        nearest(
            f,
            negative,
            units(f, x.key as nat) * units(f, y.key as nat),
            pow2(f.scale as nat),
        )
    }
}

/// Division: the exact quotient, rounded once. What is divided by zero is infinite.
pub open spec fn divided(f: Format, x: Signed, y: Signed) -> Signed {
    let negative = x.negative != y.negative;
    if x.is_nan(f) || y.is_nan(f) {
        nan(f)
    } else if x.is_infinite(f) {
        if y.is_infinite(f) {
            nan(f)
        } else {
            infinity(f, negative)
        }
    } else if y.is_infinite(f) {
        zero(negative)
    } else if y.key == 0 {
        if x.key == 0 {
            nan(f)
        } else {
            infinity(f, negative)
        }
    } else {
        nearest(
            f,
            negative,
            units(f, x.key as nat) * pow2(f.scale as nat),
            units(f, y.key as nat),
        )
    }
}

/// The order of numbers; what is not a number is neither below nor above anything.
pub open spec fn below(f: Format, x: Signed, y: Signed) -> bool {
    !x.is_nan(f) && !y.is_nan(f) && x.rank() < y.rank()
}

/// Equality of numbers: the two zeros are equal, and what is not a number equals nothing.
pub open spec fn equal(f: Format, x: Signed, y: Signed) -> bool {
    !x.is_nan(f) && !y.is_nan(f) && x.rank() == y.rank()
}

/// The number of a format with fewer places that is nearest to `x`.
pub open spec fn narrow(f: Format, g: Format, x: Signed) -> Signed {
    if x.is_nan(f) {
        nan(g)
    } else if x.is_infinite(f) {
        infinity(g, x.negative)
    } else {
        nearest(
            g,
            x.negative,
            units(f, x.key as nat),
            pow2((f.scale - g.scale) as nat),
        )
    }
}

proof fn lemma_room_for_nan(f: Format)
    requires
        f.wf(),
    ensures
        0 < hidden(f) / 2,
        f.infinity + hidden(f) / 2 < 0x8000_0000_0000_0000 + 0x8_0000_0000_0000,
{
    lemma_hidden(f);
    lemma_pow2_small();
    lemma_pow2_mono((f.precision - 1) as nat, 52);
}

fn not_a_number(f: Format) -> (r: Signed)
    requires
        f.wf(),
    ensures
        r == nan(f),
        r.fits(f),
{
    proof {
        lemma_room_for_nan(f);
        lemma_pow2_unfold((f.precision - 1) as nat);
    }
    let half: u64 = power_of_two(f.precision - 2) as u64;
    Signed { negative: false, key: f.infinity + half }
}

pub fn plus(f: Format, x: Signed, y: Signed) -> (r: Signed)
    requires
        f.wf(),
    ensures
        r == added(f, x, y),
        r.fits(f),
{
    if x.key > f.infinity || y.key > f.infinity {
        return not_a_number(f);
    }
    if x.key == f.infinity {
        if y.key == f.infinity && x.negative != y.negative {
            return not_a_number(f);
        }
        return x;
    }
    if y.key == f.infinity {
        return y;
    }
    proof {
        lemma_order(f, x, y);
        lemma_zero(f, x.key as nat);
        lemma_zero(f, y.key as nat);
    }
    if x.negative == y.negative {
        if x.key == 0 && y.key == 0 {
            return Signed { negative: x.negative, key: 0 };
        }
        Signed { negative: x.negative, key: sum(f, x.key, y.key) }
    } else if x.key == y.key {
        Signed { negative: false, key: 0 }
    } else if x.key > y.key {
        Signed { negative: x.negative, key: difference(f, x.key, y.key) }
    } else {
        Signed { negative: y.negative, key: difference(f, y.key, x.key) }
    }
}

pub fn multiply(f: Format, x: Signed, y: Signed) -> (r: Signed)
    requires
        f.wf(),
    ensures
        r == multiplied(f, x, y),
        r.fits(f),
{
    let negative: bool = x.negative != y.negative;
    if x.key > f.infinity || y.key > f.infinity {
        return not_a_number(f);
    }
    if x.key == f.infinity || y.key == f.infinity {
        if x.key == 0 || y.key == 0 {
            return not_a_number(f);
        }
        return Signed { negative, key: f.infinity };
    }
    Signed { negative, key: product(f, x.key, y.key) }
}

pub fn divide(f: Format, x: Signed, y: Signed) -> (r: Signed)
    requires
        f.wf(),
    ensures
        r == divided(f, x, y),
        r.fits(f),
{
    let negative: bool = x.negative != y.negative;
    if x.key > f.infinity || y.key > f.infinity {
        return not_a_number(f);
    }
    if x.key == f.infinity {
        if y.key == f.infinity {
            return not_a_number(f);
        }
        return Signed { negative, key: f.infinity };
    }
    if y.key == f.infinity {
        return Signed { negative, key: 0 };
    }
    if y.key == 0 {
        if x.key == 0 {
            return not_a_number(f);
        }
        return Signed { negative, key: f.infinity };
    }
    Signed { negative, key: quotient(f, x.key, y.key) }
}

/// Magnitudes compare as their keys.
proof fn lemma_order(f: Format, x: Signed, y: Signed)
    requires
        f.wf(),
    ensures
        x.key < y.key <==> units(f, x.key as nat) < units(f, y.key as nat),
        x.key == y.key <==> units(f, x.key as nat) == units(f, y.key as nat),
{
    if x.key < y.key {
        lemma_units_increase(f, x.key as nat, y.key as nat);
    }
    if y.key < x.key {
        lemma_units_increase(f, y.key as nat, x.key as nat);
    }
}

proof fn lemma_zero(f: Format, key: nat)
    requires
        f.wf(),
    ensures
        key == 0 <==> units(f, key) == 0,
{
    lemma_hidden(f);
    lemma_units_at(f, 0, 0);
    assert(0nat * hidden(f) == 0);
    assert(0nat * pow2(0) == 0);
    if key > 0 {
        lemma_units_increase(f, 0, key);
    }
}

/// The order of numbers is the order of their values.
pub proof fn law_order_is_of_values(f: Format, x: Signed, y: Signed)
    requires
        f.wf(),
    ensures
        x.rank() < y.rank() <==> x.value(f) < y.value(f),
        x.rank() == y.rank() <==> x.value(f) == y.value(f),
{
    lemma_order(f, x, y);
    lemma_zero(f, x.key as nat);
    lemma_zero(f, y.key as nat);
}

pub fn is_below(f: Format, x: Signed, y: Signed) -> (r: bool)
    requires
        f.wf(),
    ensures
        r == below(f, x, y),
{
    if x.key > f.infinity || y.key > f.infinity {
        return false;
    }
    if x.negative && y.negative {
        y.key < x.key
    } else if x.negative {
        x.key > 0 || y.key > 0
    } else if y.negative {
        false
    } else {
        x.key < y.key
    }
}

pub fn is_equal(f: Format, x: Signed, y: Signed) -> (r: bool)
    requires
        f.wf(),
    ensures
        r == equal(f, x, y),
{
    if x.key > f.infinity || y.key > f.infinity {
        return false;
    }
    x.key == y.key && (x.negative == y.negative || x.key == 0)
}

pub fn to_narrower(f: Format, g: Format, x: Signed) -> (r: Signed)
    requires
        f.wf(),
        g.wf(),
        g.scale <= f.scale,
    ensures
        r == narrow(f, g, x),
        r.fits(g),
{
    if x.key > f.infinity {
        return not_a_number(g);
    }
    if x.key == f.infinity {
        return Signed { negative: x.negative, key: g.infinity };
    }
    Signed { negative: x.negative, key: narrowed(f, g, x.key) }
}

/// `y` is the number of a format with more places that `x` is in its own.
pub open spec fn widens_to(f: Format, g: Format, x: Signed, y: Signed) -> bool {
    if x.is_nan(f) {
        y == nan(g)
    } else {
        &&& y.negative == x.negative
        &&& if x.is_infinite(f) {
            y.key == g.infinity
        } else {
            &&& y.key < g.infinity
            &&& units(g, y.key as nat) == units(f, x.key as nat) * pow2(
                (g.scale - f.scale) as nat,
            )
        }
    }
}

pub open spec fn widen(f: Format, g: Format, x: Signed) -> Signed {
    choose|y: Signed| widens_to(f, g, x, y)
}

pub fn to_wider(f: Format, g: Format, x: Signed) -> (r: Signed)
    requires
        f.wf(),
        g.wf(),
        f.scale <= g.scale,
        f.precision <= g.precision,
        units(f, f.infinity as nat) * pow2((g.scale - f.scale) as nat)
            <= units(g, g.infinity as nat),
    ensures
        widens_to(f, g, x, r),
        r == widen(f, g, x),
{
    let r: Signed = if x.key > f.infinity {
        not_a_number(g)
    } else if x.key == f.infinity {
        Signed { negative: x.negative, key: g.infinity }
    } else {
        Signed { negative: x.negative, key: widened(f, g, x.key) }
    };
    proof {
        assert(widens_to(f, g, x, r));
        lemma_order(g, r, widen(f, g, x));
    }
    r
}

pub fn from_whole(f: Format, negative: bool, n: u64) -> (r: Signed)
    requires
        f.wf(),
    ensures
        r == nearest(f, negative, n as nat * pow2(f.scale as nat), 1),
        r.fits(f),
{
    Signed { negative, key: whole(f, n) }
}

/// The whole number nearest to a magnitude, the greater one of two equally near.
pub open spec fn nearest_whole(f: Format, key: nat) -> nat {
    (2 * units(f, key) + pow2(f.scale as nat)) / (2 * pow2(f.scale as nat))
}

/// [`nearest_whole`], cut at `limit`.
pub fn to_whole(f: Format, key: u64, limit: u64) -> (r: u64)
    requires
        f.wf(),
        key < f.infinity,
    ensures
        r == if nearest_whole(f, key as nat) <= limit { nearest_whole(f, key as nat) } else {
            limit as nat
        },
{
    let (m, e) = parts(f, key);
    let ghost u = units(f, key as nat);
    let ghost s = pow2(f.scale as nat);
    proof {
        lemma_hidden(f);
        lemma_pow2_small();
        lemma_pow2_mono((f.precision - 1) as nat, 52);
        lemma_pow2_pos(f.scale as nat);
    }
    if e >= f.scale {
        let up: u32 = e - f.scale;
        proof {
            lemma_pow2_adds(up as nat, f.scale as nat);
            let w = pow2(up as nat);
            lemma_pow2_pos(up as nat);
            assert(2 * u + s == (m * w) * (2 * s) + s) by (nonlinear_arith)
                requires
                    u == m * (w * s),
            ;
            vstd::arithmetic::div_mod::lemma_fundamental_div_mod_converse(
                (2 * u + s) as int,
                (2 * s) as int,
                (m * w) as int,
                s as int,
            );
            if m > 0 && up >= 64 {
                lemma_pow2_mono(64, up as nat);
                assert(m * w >= w) by (nonlinear_arith)
                    requires
                        m >= 1,
                        w >= 0,
                ;
            }
            if up < 64 {
                lemma_pow2_mono(up as nat, 64);
                assert(m * w <= 0x20_0000_0000_0000 * 0x1_0000_0000_0000_0000)
                    by (nonlinear_arith)
                    requires
                        0 <= m <= 0x20_0000_0000_0000,
                        0 <= w <= 0x1_0000_0000_0000_0000,
                ;
            }
            assert(m == 0 ==> m * w == 0) by (nonlinear_arith);
        }
        if m == 0 {
            return 0;
        }
        if up >= 64 {
            return limit;
        }
        let n: u128 = (m as u128) * power_of_two(up);
        if n <= limit as u128 {
            n as u64
        } else {
            limit
        }
    } else {
        let down: u32 = f.scale - e;
        proof {
            lemma_pow2_adds(down as nat, e as nat);
            let w = pow2(down as nat);
            let v = pow2(e as nat);
            lemma_pow2_pos(down as nat);
            lemma_pow2_pos(e as nat);
            assert(2 * u + s == (2 * m + w) * v) by (nonlinear_arith)
                requires
                    u == m * v,
                    s == w * v,
            ;
            assert(2 * s == (2 * w) * v) by (nonlinear_arith)
                requires
                    s == w * v,
            ;
            let q = (2 * m + w) as int / (2 * w) as int;
            let r = (2 * m + w) as int % (2 * w) as int;
            vstd::arithmetic::div_mod::lemma_fundamental_div_mod(
                (2 * m + w) as int,
                (2 * w) as int,
            );
            assert(2 * u + s == q * (2 * s) + r * v && 0 <= r * v < 2 * s) by (nonlinear_arith)
                requires
                    2 * u + s == (2 * m + w) * v,
                    2 * s == (2 * w) * v,
                    2 * m + w == (2 * w) * q + r,
                    0 <= r < 2 * w,
                    v > 0,
            ;
            vstd::arithmetic::div_mod::lemma_fundamental_div_mod_converse(
                (2 * u + s) as int,
                (2 * s) as int,
                q,
                r * v,
            );
            assert(nearest_whole(f, key as nat) == q);
            if down > 60 {
                lemma_pow2_mono(60, down as nat);
                assert(pow2(60) == 0x1000_0000_0000_0000) by {
                    vstd::arithmetic::power2::lemma2_to64_rest();
                }
                assert(q == 0) by (nonlinear_arith)
                    requires
                        2 * m + w == (2 * w) * q + r,
                        0 <= r,
                        2 * m < w,
                        m >= 0,
                        q >= 0,
                        w > 0,
                ;
            }
        }
        if down > 60 {
            return 0;
        }
        let w: u128 = power_of_two(down);
        proof {
            lemma_pow2_mono(down as nat, 60);
            assert(pow2(60) == 0x1000_0000_0000_0000) by {
                vstd::arithmetic::power2::lemma2_to64_rest();
            }
        }
        let n: u128 = (2 * (m as u128) + w) / (2 * w);
        proof {
            vstd::arithmetic::div_mod::lemma_fundamental_div_mod((2 * m + w) as int, (2 * w) as int);
        }
        if n <= limit as u128 {
            n as u64
        } else {
            limit
        }
    }
}

/// The place that a signed ratio is rounded to.
pub open spec fn rounded_rank(f: Format, num: int, den: nat) -> int {
    if num >= 0 {
        round(f, num as nat, den) as int
    } else {
        -(round(f, (-num) as nat, den) as int)
    }
}

pub proof fn lemma_rounded_rank(f: Format, num1: int, num2: int, den: nat)
    requires
        f.wf(),
        den > 0,
        num1 <= num2,
    ensures
        rounded_rank(f, num1, den) <= rounded_rank(f, num2, den),
        rounded_rank(f, 0, den) == 0,
        -(f.infinity as int) <= rounded_rank(f, num1, den) <= f.infinity,
{
    law_rounding_is_total(f, num1 as nat, den);
    law_rounding_is_total(f, (-num1) as nat, den);
    lemma_zero(f, 0);
    assert(0nat * den == 0);
    lemma_round_exact(f, 0, den, 0);
    if num1 >= 0 {
        assert(num1 * den <= num2 * den) by (nonlinear_arith)
            requires
                num1 <= num2,
                den > 0,
        ;
        law_rounding_is_monotone(f, num1 as nat, den, num2 as nat, den);
    } else if num2 < 0 {
        assert((-num2) * den <= (-num1) * den) by (nonlinear_arith)
            requires
                num1 <= num2,
                den > 0,
        ;
        law_rounding_is_monotone(f, (-num2) as nat, den, (-num1) as nat, den);
    }
}

/// The place of a sum of finite numbers.
pub proof fn lemma_added_rank(f: Format, x: Signed, y: Signed)
    requires
        f.wf(),
        x.is_finite(f),
        y.is_finite(f),
    ensures
        added(f, x, y).rank() == rounded_rank(f, x.value(f) + y.value(f), 1),
        added(f, x, y).key <= f.infinity,
{
    let s = x.value(f) + y.value(f);
    lemma_rounded_rank(f, s, s, 1);
    law_rounding_is_total(f, s as nat, 1);
    law_rounding_is_total(f, (-s) as nat, 1);
}

/// The place of a quotient by a positive finite number.
pub proof fn lemma_divided_rank(f: Format, x: Signed, y: Signed)
    requires
        f.wf(),
        x.is_finite(f),
        y.is_finite(f),
        y.key > 0,
        !y.negative,
    ensures
        divided(f, x, y).rank() == rounded_rank(
            f,
            x.value(f) * pow2(f.scale as nat),
            units(f, y.key as nat),
        ),
        divided(f, x, y).key <= f.infinity,
        units(f, y.key as nat) > 0,
{
    let ux = units(f, x.key as nat);
    let uy = units(f, y.key as nat);
    let w = pow2(f.scale as nat);
    lemma_zero(f, y.key as nat);
    lemma_pow2_pos(f.scale as nat);
    law_rounding_is_total(f, ux * w, uy);
    assert((-(ux as int)) * w == -(ux * w)) by (nonlinear_arith);
    assert(ux * w >= 0) by (nonlinear_arith);
    if ux * w == 0 {
        lemma_rounded_rank(f, 0, 0, uy);
    }
}

} // verus!
