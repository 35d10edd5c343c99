//! Binary floating-point numbers, computed in whole-number arithmetic.
//!
//! A reading, a threshold or a budget is a number of the binary32 or the binary64 interchange
//! format. [`F32`] and [`F64`] carry such a number as its bits, and every operation gives the
//! number nearest to the exact result, the even one of two equally near. An operation without
//! a result gives the quiet pattern of what is not a number.

use crate::float::model::{
    hidden, law_rounding_is_total, lemma_hidden, lemma_round_exact, lemma_units_at, round, units,
    Format,
};
use crate::float::signed::{
    added, below, divide, divided, equal, from_whole, is_below, is_equal, multiplied, multiply,
    narrow, nearest, nearest_whole, opposite, plus, to_narrower, to_whole, to_wider, widen, widens_to,
    Signed,
};
use vstd::arithmetic::power2::{lemma_pow2_adds, pow2};
use vstd::prelude::*;

pub mod decimal;
pub mod magnitude;
pub mod meaning;
pub mod model;
pub mod order;
pub mod round;
pub mod shares;
pub mod signed;
pub mod widening;

verus! {

pub open spec fn binary32() -> Format {
    Format { precision: 24, infinity: 0x7f80_0000, scale: 149 }
}

pub open spec fn binary64() -> Format {
    Format { precision: 53, infinity: 0x7ff0_0000_0000_0000, scale: 1074 }
}

fn format32() -> (r: Format)
    ensures
        r == binary32(),
        r.wf(),
        hidden(r) == 0x80_0000,
{
    proof {
        lemma_formats();
    }
    Format { precision: 24, infinity: 0x7f80_0000, scale: 149 }
}

fn format64() -> (r: Format)
    ensures
        r == binary64(),
        r.wf(),
        hidden(r) == 0x10_0000_0000_0000,
{
    proof {
        lemma_formats();
    }
    Format { precision: 53, infinity: 0x7ff0_0000_0000_0000, scale: 1074 }
}

/// The two formats are within the bounds of the arithmetic.
pub proof fn lemma_formats()
    ensures
        binary32().wf(),
        binary64().wf(),
        hidden(binary32()) == 0x80_0000,
        hidden(binary64()) == 0x10_0000_0000_0000,
{
    vstd::arithmetic::power2::lemma2_to64();
    vstd::arithmetic::power2::lemma2_to64_rest();
    assert(0x7f80_0000nat % 0x80_0000 == 0 && 0x7f80_0000nat / 0x80_0000 == 255);
    assert(0x7ff0_0000_0000_0000nat % 0x10_0000_0000_0000 == 0);
    assert(0x7ff0_0000_0000_0000nat / 0x10_0000_0000_0000 == 2047);
}

/// Every number of the narrower format is one of the wider format.
proof fn lemma_widening()
    ensures
        units(binary32(), 0x7f80_0000) * pow2(925) <= units(binary64(), 0x7ff0_0000_0000_0000),
{
    lemma_formats();
    lemma_units_at(binary32(), 254, 0x80_0000);
    lemma_units_at(binary64(), 2046, 0x10_0000_0000_0000);
    vstd::arithmetic::power2::lemma2_to64();
    vstd::arithmetic::power2::lemma2_to64_rest();
    lemma_pow2_adds(23, 254);
    lemma_pow2_adds(277, 925);
    lemma_pow2_adds(52, 2046);
    vstd::arithmetic::power2::lemma_pow2_strictly_increases(1202, 2098);
}

proof fn lemma_widened_fits(x: Signed, y: Signed)
    requires
        widens_to(binary32(), binary64(), x, y),
    ensures
        y.key < 0x8000_0000_0000_0000,
{
    lemma_formats();
}

/// What is finite, divided by what is finite and not zero, is a number; so is a difference with
/// what is finite.
pub proof fn law_numbers_stay_numbers(x: F32, y: F32)
    requires
        x.is_finite(),
        !y.is_nan(),
    ensures
        y.is_finite() && y.signed().key != 0 ==> !x.over(y).is_nan(),
        !x.minus(y).is_nan(),
{
    let f = binary32();
    let a = x.signed();
    let b = opposite(y.signed());
    lemma_formats();
    if y.is_finite() {
        if b.key != 0 {
            crate::float::model::lemma_units_increase(f, 0, b.key as nat);
            law_rounding_is_total(f, units(f, a.key as nat) * pow2(149), units(f, b.key as nat));
        }
        let sum = a.value(f) + b.value(f);
        law_rounding_is_total(f, sum as nat, 1);
        law_rounding_is_total(f, (-sum) as nat, 1);
    }
}

/// What is a number stays one in the narrower format.
pub proof fn law_narrowed_is_a_number(x: F64)
    requires
        !x.is_nan(),
    ensures
        !x.narrow().is_nan(),
{
    lemma_formats();
    if x.is_finite() {
        vstd::arithmetic::power2::lemma_pow2_pos(925);
        law_rounding_is_total(
            binary32(),
            units(binary64(), x.signed().key as nat),
            pow2(925),
        );
    }
}

/// A whole number that a `u64` holds is finite in either format, not negative, and zero only where
/// it is zero.
pub proof fn law_whole_is_finite(n: u64)
    ensures
        F32::from_whole(n).is_finite(),
        F64::from_whole(n).is_finite(),
        !F32::from_whole(n).signed().negative,
        !F64::from_whole(n).signed().negative,
        F32::from_whole(n).signed().key == 0 <==> n == 0,
        F64::from_whole(n).signed().key == 0 <==> n == 0,
{
    lemma_formats();
    lemma_whole_is_finite(binary32(), 254, n as nat);
    lemma_whole_is_finite(binary64(), 2046, n as nat);
}

pub proof fn lemma_whole_is_finite(f: Format, top: nat, n: nat)
    requires
        f.wf(),
        f.infinity == (top + 1) * hidden(f),
        f.scale + 65 < top,
        f.scale >= 2,
        n <= u64::MAX,
    ensures
        round(f, n * pow2(f.scale as nat), 1) < f.infinity,
        round(f, n * pow2(f.scale as nat), 1) == 0 <==> n == 0,
{
    let s = pow2(f.scale as nat);
    let num = n * s;
    let h = hidden(f);
    let key = round(f, num, 1);
    law_rounding_is_total(f, num, 1);
    lemma_hidden(f);
    assert((top + 1) * h == top * h + h) by (nonlinear_arith);
    lemma_units_at(f, top, h);
    lemma_pow2_adds(65, f.scale as nat);
    vstd::arithmetic::power2::lemma_pow2_strictly_increases((65 + f.scale) as nat, top);
    vstd::arithmetic::power2::lemma2_to64();
    vstd::arithmetic::power2::lemma2_to64_rest();
    vstd::arithmetic::power2::lemma_pow2_unfold(65);
    vstd::arithmetic::power2::lemma_pow2_pos(f.scale as nat);
    assert(2 * num < pow2(65) * s) by (nonlinear_arith)
        requires
            num == n * s,
            2 * n < pow2(65),
            s > 0,
    ;
    assert(h * pow2(top) >= pow2(top)) by (nonlinear_arith)
        requires
            h >= 1,
            pow2(top) >= 0,
    ;
    if n == 0 {
        assert(num == 0) by (nonlinear_arith)
            requires
                num == n * s,
                n == 0,
        ;
        if key > 0 {
            crate::float::model::lemma_units_increase(f, (key - 1) as nat, key);
        }
    } else {
        vstd::arithmetic::power2::lemma_pow2_strictly_increases(1, f.scale as nat);
        assert(num >= 2) by (nonlinear_arith)
            requires
                num == n * s,
                n >= 1,
                s >= 2,
        ;
        assert(units(f, 0) == 0 && units(f, 1) == 1);
    }
}
/// A number of the binary32 format, carried as its bits.
#[derive(Clone, Copy, Debug)]
pub struct F32 {
    pub bits: u32,
}

impl F32 {
    pub open spec fn signed(self) -> Signed {
        Signed {
            negative: self.bits >= 0x8000_0000,
            key: (self.bits % 0x8000_0000) as u64,
        }
    }

    pub open spec fn of(x: Signed) -> F32 {
        F32 {
            bits: (x.key + if x.negative {
                0x8000_0000int
            } else {
                0
            }) as u32,
        }
    }

    fn unpack(self) -> (r: Signed)
        ensures
            r == self.signed(),
    {
        if self.bits >= 0x8000_0000 {
            Signed { negative: true, key: (self.bits - 0x8000_0000) as u64 }
        } else {
            Signed { negative: false, key: self.bits as u64 }
        }
    }

    fn pack(x: Signed) -> (r: F32)
        requires
            x.key < 0x8000_0000,
        ensures
            r == F32::of(x),
            r.signed() == x,
    {
        if x.negative {
            F32 { bits: x.key as u32 + 0x8000_0000 }
        } else {
            F32 { bits: x.key as u32 }
        }
    }

    /// Neither infinite nor what is not a number.
    pub open spec fn spec_is_finite(self) -> bool {
        self.signed().is_finite(binary32())
    }

    #[verifier::when_used_as_spec(spec_is_finite)]
    pub fn is_finite(self) -> (r: bool)
        ensures
            r == self.is_finite(),
    {
        let f: Format = format32();
        self.unpack().key < f.infinity
    }

    pub open spec fn spec_is_nan(self) -> bool {
        self.signed().is_nan(binary32())
    }

    #[verifier::when_used_as_spec(spec_is_nan)]
    pub fn is_nan(self) -> (r: bool)
        ensures
            r == self.is_nan(),
    {
        let f: Format = format32();
        self.unpack().key > f.infinity
    }

    pub open spec fn spec_lt(self, other: F32) -> bool {
        below(binary32(), self.signed(), other.signed())
    }

    /// The order of numbers; what is not a number is below nothing.
    #[verifier::when_used_as_spec(spec_lt)]
    pub fn lt(self, other: F32) -> (r: bool)
        ensures
            r == self.lt(other),
    {
        let f: Format = format32();
        is_below(f, self.unpack(), other.unpack())
    }

    pub open spec fn spec_same(self, other: F32) -> bool {
        equal(binary32(), self.signed(), other.signed())
    }

    /// Equality of numbers; what is not a number equals nothing.
    #[verifier::when_used_as_spec(spec_same)]
    pub fn same(self, other: F32) -> (r: bool)
        ensures
            r == self.same(other),
    {
        let f: Format = format32();
        is_equal(f, self.unpack(), other.unpack())
    }

    pub open spec fn spec_at_least(self, other: F32) -> bool {
        other.lt(self) || self.same(other)
    }

    /// Not below, for two numbers; what is not a number is at least nothing.
    #[verifier::when_used_as_spec(spec_at_least)]
    pub fn at_least(self, other: F32) -> (r: bool)
        ensures
            r == self.at_least(other),
    {
        other.lt(self) || self.same(other)
    }

    pub open spec fn spec_plus(self, other: F32) -> F32 {
        F32::of(added(binary32(), self.signed(), other.signed()))
    }

    #[verifier::when_used_as_spec(spec_plus)]
    pub fn plus(self, other: F32) -> (r: F32)
        ensures
            r == self.plus(other),
    {
        let f: Format = format32();
        let r: Signed = plus(f, self.unpack(), other.unpack());
        F32::pack(r)
    }

    pub open spec fn spec_minus(self, other: F32) -> F32 {
        F32::of(added(binary32(), self.signed(), opposite(other.signed())))
    }

    #[verifier::when_used_as_spec(spec_minus)]
    pub fn minus(self, other: F32) -> (r: F32)
        ensures
            r == self.minus(other),
    {
        let f: Format = format32();
        let y: Signed = other.unpack();
        let r: Signed = plus(f, self.unpack(), Signed { negative: !y.negative, key: y.key });
        F32::pack(r)
    }

    pub open spec fn spec_times(self, other: F32) -> F32 {
        F32::of(multiplied(binary32(), self.signed(), other.signed()))
    }

    #[verifier::when_used_as_spec(spec_times)]
    pub fn times(self, other: F32) -> (r: F32)
        ensures
            r == self.times(other),
    {
        let f: Format = format32();
        let r: Signed = multiply(f, self.unpack(), other.unpack());
        F32::pack(r)
    }

    pub open spec fn spec_over(self, other: F32) -> F32 {
        F32::of(divided(binary32(), self.signed(), other.signed()))
    }

    #[verifier::when_used_as_spec(spec_over)]
    pub fn over(self, other: F32) -> (r: F32)
        ensures
            r == self.over(other),
    {
        let f: Format = format32();
        let r: Signed = divide(f, self.unpack(), other.unpack());
        F32::pack(r)
    }

    /// The nearer bound where this number is outside of the two, and itself elsewhere; what is
    /// not a number stays so.
    pub open spec fn spec_clamped(self, low: F32, high: F32) -> F32 {
        if self.lt(low) {
            low
        } else if high.lt(self) {
            high
        } else {
            self
        }
    }

    #[verifier::when_used_as_spec(spec_clamped)]
    pub fn clamped(self, low: F32, high: F32) -> (r: F32)
        ensures
            r == self.clamped(low, high),
    {
        if self.lt(low) {
            low
        } else if high.lt(self) {
            high
        } else {
            self
        }
    }

    /// The number nearest to a whole one.
    pub open spec fn spec_from_whole(n: u64) -> F32 {
        F32::of(nearest(binary32(), false, n as nat * pow2(149), 1))
    }

    #[verifier::when_used_as_spec(spec_from_whole)]
    pub fn from_whole(n: u64) -> (r: F32)
        ensures
            r == F32::from_whole(n),
    {
        let f: Format = format32();
        F32::pack(from_whole(f, false, n))
    }

    /// The same number in the wider format; narrowed again, a number is what it was.
    pub open spec fn spec_widen(self) -> F64 {
        F64::of(widen(binary32(), binary64(), self.signed()))
    }

    #[verifier::when_used_as_spec(spec_widen)]
    pub fn widen(self) -> (r: F64)
        ensures
            r == self.widen(),
            widens_to(binary32(), binary64(), self.signed(), r.signed()),
            !self.is_nan() ==> r.narrow() == self,
    {
        let f: Format = format32();
        let g: Format = format64();
        proof {
            lemma_widening();
        }
        let x: Signed = to_wider(f, g, self.unpack());
        proof {
            lemma_widened_fits(self.signed(), x);
            if self.is_finite() {
                vstd::arithmetic::power2::lemma_pow2_pos(925);
                lemma_round_exact(
                    f,
                    units(g, x.key as nat),
                    pow2(925),
                    self.signed().key as nat,
                );
            }
        }
        F64::pack(x)
    }

    /// The number nearest to a signed whole one.
    pub open spec fn spec_from_signed(n: i32) -> F32 {
        F32::of(
            nearest(
                binary32(),
                n < 0,
                (if n < 0 {
                    -(n as int)
                } else {
                    n as int
                }) as nat * pow2(149),
                1,
            ),
        )
    }

    #[verifier::when_used_as_spec(spec_from_signed)]
    pub fn from_signed(n: i32) -> (r: F32)
        ensures
            r == F32::from_signed(n),
    {
        let f: Format = format32();
        let wide: i64 = n as i64;
        let magnitude: u64 = if wide < 0 {
            (-wide) as u64
        } else {
            wide as u64
        };
        F32::pack(from_whole(f, n < 0, magnitude))
    }
}

impl PartialEq for F32 {
    fn eq(&self, other: &F32) -> (r: bool) {
        self.same(*other)
    }
}

impl vstd::std_specs::cmp::PartialEqSpecImpl for F32 {
    open spec fn obeys_eq_spec() -> bool {
        true
    }

    open spec fn eq_spec(&self, other: &F32) -> bool {
        self.same(*other)
    }
}

/// A number of the binary64 format, carried as its bits.
#[derive(Clone, Copy, Debug)]
pub struct F64 {
    pub bits: u64,
}

impl F64 {
    pub open spec fn signed(self) -> Signed {
        Signed {
            negative: self.bits >= 0x8000_0000_0000_0000,
            key: (self.bits % 0x8000_0000_0000_0000) as u64,
        }
    }

    pub open spec fn of(x: Signed) -> F64 {
        F64 {
            bits: (x.key + if x.negative {
                0x8000_0000_0000_0000int
            } else {
                0
            }) as u64,
        }
    }

    fn unpack(self) -> (r: Signed)
        ensures
            r == self.signed(),
    {
        if self.bits >= 0x8000_0000_0000_0000 {
            Signed { negative: true, key: (self.bits - 0x8000_0000_0000_0000) }
        } else {
            Signed { negative: false, key: self.bits }
        }
    }

    fn pack(x: Signed) -> (r: F64)
        requires
            x.key < 0x8000_0000_0000_0000,
        ensures
            r == F64::of(x),
            r.signed() == x,
    {
        if x.negative {
            F64 { bits: x.key + 0x8000_0000_0000_0000 }
        } else {
            F64 { bits: x.key }
        }
    }

    /// Neither infinite nor what is not a number.
    pub open spec fn spec_is_finite(self) -> bool {
        self.signed().is_finite(binary64())
    }

    #[verifier::when_used_as_spec(spec_is_finite)]
    pub fn is_finite(self) -> (r: bool)
        ensures
            r == self.is_finite(),
    {
        let f: Format = format64();
        self.unpack().key < f.infinity
    }

    pub open spec fn spec_is_nan(self) -> bool {
        self.signed().is_nan(binary64())
    }

    #[verifier::when_used_as_spec(spec_is_nan)]
    pub fn is_nan(self) -> (r: bool)
        ensures
            r == self.is_nan(),
    {
        let f: Format = format64();
        self.unpack().key > f.infinity
    }

    pub open spec fn spec_lt(self, other: F64) -> bool {
        below(binary64(), self.signed(), other.signed())
    }

    /// The order of numbers; what is not a number is below nothing.
    #[verifier::when_used_as_spec(spec_lt)]
    pub fn lt(self, other: F64) -> (r: bool)
        ensures
            r == self.lt(other),
    {
        let f: Format = format64();
        is_below(f, self.unpack(), other.unpack())
    }

    pub open spec fn spec_same(self, other: F64) -> bool {
        equal(binary64(), self.signed(), other.signed())
    }

    /// Equality of numbers; what is not a number equals nothing.
    #[verifier::when_used_as_spec(spec_same)]
    pub fn same(self, other: F64) -> (r: bool)
        ensures
            r == self.same(other),
    {
        let f: Format = format64();
        is_equal(f, self.unpack(), other.unpack())
    }

    pub open spec fn spec_at_least(self, other: F64) -> bool {
        other.lt(self) || self.same(other)
    }

    /// Not below, for two numbers; what is not a number is at least nothing.
    #[verifier::when_used_as_spec(spec_at_least)]
    pub fn at_least(self, other: F64) -> (r: bool)
        ensures
            r == self.at_least(other),
    {
        other.lt(self) || self.same(other)
    }

    pub open spec fn spec_plus(self, other: F64) -> F64 {
        F64::of(added(binary64(), self.signed(), other.signed()))
    }

    #[verifier::when_used_as_spec(spec_plus)]
    pub fn plus(self, other: F64) -> (r: F64)
        ensures
            r == self.plus(other),
    {
        let f: Format = format64();
        let r: Signed = plus(f, self.unpack(), other.unpack());
        F64::pack(r)
    }

    pub open spec fn spec_minus(self, other: F64) -> F64 {
        F64::of(added(binary64(), self.signed(), opposite(other.signed())))
    }

    #[verifier::when_used_as_spec(spec_minus)]
    pub fn minus(self, other: F64) -> (r: F64)
        ensures
            r == self.minus(other),
    {
        let f: Format = format64();
        let y: Signed = other.unpack();
        let r: Signed = plus(f, self.unpack(), Signed { negative: !y.negative, key: y.key });
        F64::pack(r)
    }

    pub open spec fn spec_times(self, other: F64) -> F64 {
        F64::of(multiplied(binary64(), self.signed(), other.signed()))
    }

    #[verifier::when_used_as_spec(spec_times)]
    pub fn times(self, other: F64) -> (r: F64)
        ensures
            r == self.times(other),
    {
        let f: Format = format64();
        let r: Signed = multiply(f, self.unpack(), other.unpack());
        F64::pack(r)
    }

    pub open spec fn spec_over(self, other: F64) -> F64 {
        F64::of(divided(binary64(), self.signed(), other.signed()))
    }

    #[verifier::when_used_as_spec(spec_over)]
    pub fn over(self, other: F64) -> (r: F64)
        ensures
            r == self.over(other),
    {
        let f: Format = format64();
        let r: Signed = divide(f, self.unpack(), other.unpack());
        F64::pack(r)
    }

    /// The nearer bound where this number is outside of the two, and itself elsewhere; what is
    /// not a number stays so.
    pub open spec fn spec_clamped(self, low: F64, high: F64) -> F64 {
        if self.lt(low) {
            low
        } else if high.lt(self) {
            high
        } else {
            self
        }
    }

    #[verifier::when_used_as_spec(spec_clamped)]
    pub fn clamped(self, low: F64, high: F64) -> (r: F64)
        ensures
            r == self.clamped(low, high),
    {
        if self.lt(low) {
            low
        } else if high.lt(self) {
            high
        } else {
            self
        }
    }

    /// The number nearest to a whole one.
    pub open spec fn spec_from_whole(n: u64) -> F64 {
        F64::of(nearest(binary64(), false, n as nat * pow2(1074), 1))
    }

    #[verifier::when_used_as_spec(spec_from_whole)]
    pub fn from_whole(n: u64) -> (r: F64)
        ensures
            r == F64::from_whole(n),
    {
        let f: Format = format64();
        F64::pack(from_whole(f, false, n))
    }

    /// The number nearest to a signed whole one.
    pub open spec fn spec_from_signed(n: i32) -> F64 {
        F64::of(
            nearest(
                binary64(),
                n < 0,
                (if n < 0 {
                    -(n as int)
                } else {
                    n as int
                }) as nat * pow2(1074),
                1,
            ),
        )
    }

    #[verifier::when_used_as_spec(spec_from_signed)]
    pub fn from_signed(n: i32) -> (r: F64)
        ensures
            r == F64::from_signed(n),
    {
        let f: Format = format64();
        let wide: i64 = n as i64;
        let magnitude: u64 = if wide < 0 {
            (-wide) as u64
        } else {
            wide as u64
        };
        F64::pack(from_whole(f, n < 0, magnitude))
    }

    /// The number of the narrower format nearest to this one.
    pub open spec fn spec_narrow(self) -> F32 {
        F32::of(narrow(binary64(), binary32(), self.signed()))
    }

    #[verifier::when_used_as_spec(spec_narrow)]
    pub fn narrow(self) -> (r: F32)
        ensures
            r == self.narrow(),
    {
        let f: Format = format64();
        let g: Format = format32();
        F32::pack(to_narrower(f, g, self.unpack()))
    }

    /// This number rounded to a whole one, halves away from zero, and cut to what an `i64` holds;
    /// what is not a number gives zero.
    pub open spec fn spec_rounded(self) -> i64 {
        let x = self.signed();
        if x.is_nan(binary64()) {
            0
        } else if x.is_infinite(binary64()) {
            if x.negative {
                i64::MIN
            } else {
                i64::MAX
            }
        } else {
            let n = nearest_whole(binary64(), x.key as nat);
            if x.negative {
                if n <= 0x8000_0000_0000_0000 {
                    (-(n as int)) as i64
                } else {
                    i64::MIN
                }
            } else {
                if n <= 0x7fff_ffff_ffff_ffff {
                    n as i64
                } else {
                    i64::MAX
                }
            }
        }
    }

    #[verifier::when_used_as_spec(spec_rounded)]
    pub fn rounded(self) -> (r: i64)
        ensures
            r == self.rounded(),
    {
        let f: Format = format64();
        let x: Signed = self.unpack();
        if x.key > f.infinity {
            return 0;
        }
        if x.key == f.infinity {
            return if x.negative {
                i64::MIN
            } else {
                i64::MAX
            };
        }
        if x.negative {
            let n: u64 = to_whole(f, x.key, 0x8000_0000_0000_0000);
            if n == 0x8000_0000_0000_0000 {
                i64::MIN
            } else {
                -(n as i64)
            }
        } else {
            let n: u64 = to_whole(f, x.key, 0x7fff_ffff_ffff_ffff);
            n as i64
        }
    }
}

impl PartialEq for F64 {
    fn eq(&self, other: &F64) -> (r: bool) {
        self.same(*other)
    }
}

impl vstd::std_specs::cmp::PartialEqSpecImpl for F64 {
    open spec fn obeys_eq_spec() -> bool {
        true
    }

    open spec fn eq_spec(&self, other: &F64) -> bool {
        self.same(*other)
    }
}

} // verus!
