//! What a binary floating-point magnitude means and how a rational is rounded to one.
//!
//! A magnitude is carried as its *key*: the bits of the encoding without the sign. Keys are
//! ordered as the magnitudes they stand for, so the neighbours of a number are the keys next
//! to its own. The value of a key is counted in *units*, the smallest positive number of the
//! format, which makes every value a whole number.

use vstd::arithmetic::div_mod::{lemma_fundamental_div_mod, lemma_fundamental_div_mod_converse};
use vstd::arithmetic::power2::{lemma_pow2_pos, lemma_pow2_unfold, pow2};
use vstd::prelude::*;

verus! {

/// A binary interchange format.
///
/// `precision` counts the significand's bits, the implicit one included. `infinity` is the key
/// of infinity: keys below it are finite and keys above it are not numbers. One unit is two to
/// the power of `-scale`.
#[derive(Clone, Copy)]
pub struct Format {
    pub precision: u32,
    pub infinity: u64,
    pub scale: u32,
}

impl Format {
    /// The bounds within which the arithmetic of this module is exact before rounding.
    pub open spec fn wf(self) -> bool {
        &&& 2 <= self.precision <= 53
        &&& self.infinity < 0x8000_0000_0000_0000
        &&& self.infinity as nat % hidden(self) == 0
        &&& 4 * hidden(self) <= self.infinity
        &&& self.infinity as nat / hidden(self) <= 2048
        &&& self.scale <= 1100
    }
}

/// The weight of the implicit leading bit of a significand.
pub open spec fn hidden(f: Format) -> nat {
    pow2((f.precision - 1) as nat)
}

/// The value of a key, in units.
pub open spec fn units(f: Format, key: nat) -> nat {
    let h = hidden(f);
    if key < h {
        key
    } else {
        (h + key % h) * pow2((key / h - 1) as nat)
    }
}

/// `key` is the number nearest to `num / den` units, the even one of two equally near.
///
/// Between two neighbours the border is their midpoint. Infinity takes the place of the first
/// number that the format no longer has, so what lies at or above the last border is infinite.
pub open spec fn rounds_to(f: Format, num: nat, den: nat, key: nat) -> bool {
    &&& key <= f.infinity
    &&& key > 0 ==> {
        let border = (units(f, (key - 1) as nat) + units(f, key)) * den;
        border < 2 * num || (border == 2 * num && key % 2 == 0)
    }
    &&& key < f.infinity ==> {
        let border = (units(f, key) + units(f, key + 1)) * den;
        2 * num < border || (border == 2 * num && key % 2 == 0)
    }
}

/// The key that `num / den` units are rounded to.
pub open spec fn round(f: Format, num: nat, den: nat) -> nat {
    choose|key: nat| rounds_to(f, num, den, key)
}

pub proof fn lemma_hidden(f: Format)
    requires
        f.wf(),
    ensures
        hidden(f) >= 2,
        hidden(f) % 2 == 0,
        pow2(f.precision as nat) == 2 * hidden(f),
{
    lemma_pow2_unfold(f.precision as nat);
    lemma_pow2_unfold((f.precision - 1) as nat);
    lemma_pow2_pos((f.precision - 2) as nat);
}

/// The key `exponent * hidden + significand` stands for `significand` times a power of two.
pub proof fn lemma_units_at(f: Format, exponent: nat, significand: nat)
    requires
        f.wf(),
        significand <= 2 * hidden(f),
        exponent == 0 || significand >= hidden(f),
    ensures
        units(f, exponent * hidden(f) + significand) == significand * pow2(exponent),
{
    let h = hidden(f);
    let key = exponent * h + significand;
    lemma_hidden(f);
    if significand < h {
        assert(exponent * h == 0) by (nonlinear_arith)
            requires
                exponent == 0,
        ;
        assert(pow2(0) == 1) by {
            vstd::arithmetic::power2::lemma2_to64();
        }
        assert(significand * 1 == significand);
    } else if significand < 2 * h {
        assert(key == (exponent + 1) * h + (significand - h)) by (nonlinear_arith)
            requires
                key == exponent * h + significand,
        ;
        lemma_fundamental_div_mod_converse(
            key as int,
            h as int,
            exponent as int + 1,
            significand as int - h,
        );
        assert(key >= h) by (nonlinear_arith)
            requires
                key == exponent * h + significand,
                significand >= h,
        ;
    } else {
        assert(key == (exponent + 2) * h) by (nonlinear_arith)
            requires
                key == exponent * h + significand,
                significand == 2 * h,
        ;
        lemma_fundamental_div_mod_converse(key as int, h as int, exponent as int + 2, 0);
        assert(key >= h) by (nonlinear_arith)
            requires
                key == exponent * h + significand,
                significand >= h,
        ;
        lemma_pow2_unfold(exponent + 1);
        assert(h * (2 * pow2(exponent)) == (2 * h) * pow2(exponent)) by (nonlinear_arith);
    }
}

/// Every key is of the form that [`lemma_units_at`] speaks of.
pub proof fn lemma_split(f: Format, key: nat) -> (parts: (nat, nat))
    requires
        f.wf(),
    ensures
        key == parts.0 * hidden(f) + parts.1,
        parts.1 < 2 * hidden(f),
        parts.0 == 0 || parts.1 >= hidden(f),
        units(f, key) == parts.1 * pow2(parts.0),
{
    let h = hidden(f);
    lemma_hidden(f);
    if key < h {
        assert(0nat * h == 0);
        lemma_units_at(f, 0, key);
        (0, key)
    } else {
        lemma_fundamental_div_mod(key as int, h as int);
        let e = key / h;
        let r = key % h;
        assert(e >= 1) by (nonlinear_arith)
            requires
                key == h * e + r,
                r < h,
                key >= h,
        ;
        assert(key == (e - 1) * h + (h + r)) by (nonlinear_arith)
            requires
                key == h * e + r,
        ;
        lemma_units_at(f, (e - 1) as nat, h + r);
        ((e - 1) as nat, h + r)
    }
}

pub proof fn lemma_units_next(f: Format, key: nat)
    requires
        f.wf(),
    ensures
        units(f, key) < units(f, key + 1),
{
    let (e, m) = lemma_split(f, key);
    lemma_units_at(f, e, m + 1);
    lemma_pow2_pos(e);
    assert(e * hidden(f) + (m + 1) == key + 1);
    assert(m * pow2(e) < (m + 1) * pow2(e)) by (nonlinear_arith)
        requires
            pow2(e) > 0,
    ;
}

/// Keys are ordered as their values.
pub proof fn lemma_units_increase(f: Format, a: nat, b: nat)
    requires
        f.wf(),
        a < b,
    ensures
        units(f, a) < units(f, b),
    decreases b - a,
{
    lemma_units_next(f, a);
    if a + 1 < b {
        lemma_units_increase(f, a + 1, b);
    }
}

/// A rational is rounded to one key only.
pub proof fn lemma_round_unique(f: Format, num: nat, den: nat, a: nat, b: nat)
    requires
        f.wf(),
        den > 0,
        rounds_to(f, num, den, a),
        rounds_to(f, num, den, b),
    ensures
        a == b,
{
    lemma_round_not_below(f, num, den, a, b);
    lemma_round_not_below(f, num, den, b, a);
}

proof fn lemma_round_not_below(f: Format, num: nat, den: nat, a: nat, b: nat)
    requires
        f.wf(),
        den > 0,
        rounds_to(f, num, den, a),
        rounds_to(f, num, den, b),
    ensures
        a >= b,
{
    if a < b {
        let low = units(f, a) + units(f, a + 1);
        let high = units(f, (b - 1) as nat) + units(f, b);
        if a + 1 < b {
            lemma_units_increase(f, a, (b - 1) as nat);
            lemma_units_increase(f, a + 1, b);
            assert(low * den < high * den) by (nonlinear_arith)
                requires
                    low < high,
                    den > 0,
            ;
        }
    }
}

pub proof fn lemma_round_is(f: Format, num: nat, den: nat, key: nat)
    requires
        f.wf(),
        den > 0,
        rounds_to(f, num, den, key),
    ensures
        round(f, num, den) == key,
{
    lemma_round_unique(f, num, den, round(f, num, den), key);
}

/// Whether a ratio is past the border below a key.
spec fn past_border(f: Format, num: nat, den: nat, key: nat) -> bool {
    key > 0 ==> {
        let border = (units(f, (key - 1) as nat) + units(f, key)) * den;
        border < 2 * num || (border == 2 * num && key % 2 == 0)
    }
}

proof fn lemma_rounds_somewhere(f: Format, num: nat, den: nat, key: nat)
    requires
        key <= f.infinity,
        key < f.infinity ==> !past_border(f, num, den, key + 1),
    ensures
        exists|k: nat| rounds_to(f, num, den, k),
    decreases key,
{
    if past_border(f, num, den, key) {
        assert(rounds_to(f, num, den, key));
    } else {
        lemma_rounds_somewhere(f, num, den, (key - 1) as nat);
    }
}

/// Every ratio is rounded to exactly one number.
pub proof fn law_rounding_is_total(f: Format, num: nat, den: nat)
    requires
        f.wf(),
        den > 0,
    ensures
        rounds_to(f, num, den, round(f, num, den)),
        forall|key: nat| #[trigger] rounds_to(f, num, den, key) ==> key == round(f, num, den),
{
    lemma_rounds_somewhere(f, num, den, f.infinity as nat);
    assert forall|key: nat| #[trigger] rounds_to(f, num, den, key) implies key == round(
        f,
        num,
        den,
    ) by {
        lemma_round_is(f, num, den, key);
    }
}

/// A greater ratio is not rounded to a smaller number.
pub proof fn law_rounding_is_monotone(f: Format, num1: nat, den1: nat, num2: nat, den2: nat)
    requires
        f.wf(),
        den1 > 0,
        den2 > 0,
        num1 * den2 <= num2 * den1,
    ensures
        round(f, num1, den1) <= round(f, num2, den2),
{
    let a = round(f, num1, den1);
    let b = round(f, num2, den2);
    law_rounding_is_total(f, num1, den1);
    law_rounding_is_total(f, num2, den2);
    if a > b {
        let p = units(f, (a - 1) as nat) + units(f, a);
        let q = units(f, b) + units(f, b + 1);
        if a > b + 1 {
            lemma_units_increase(f, b, (a - 1) as nat);
            lemma_units_increase(f, b + 1, a);
        }
        assert((p * den1) * den2 <= (2 * num1) * den2) by (nonlinear_arith)
            requires
                p * den1 <= 2 * num1,
        ;
        assert((2 * num1) * den2 <= (2 * num2) * den1) by (nonlinear_arith)
            requires
                num1 * den2 <= num2 * den1,
        ;
        assert((2 * num2) * den1 <= (q * den2) * den1) by (nonlinear_arith)
            requires
                2 * num2 <= q * den2,
        ;
        assert(p <= q) by (nonlinear_arith)
            requires
                (p * den1) * den2 <= (q * den2) * den1,
                den1 > 0,
                den2 > 0,
        ;
        assert(p * den1 == 2 * num1) by (nonlinear_arith)
            requires
                p == q,
                (2 * num1) * den2 <= (q * den2) * den1,
                p * den1 <= 2 * num1,
                den2 > 0,
        ;
        assert(2 * num2 == q * den2) by (nonlinear_arith)
            requires
                p == q,
                (p * den1) * den2 <= (2 * num2) * den1,
                2 * num2 <= q * den2,
                den1 > 0,
        ;
    }
}

/// What is a value of the format already is not changed by rounding.
pub proof fn lemma_round_exact(f: Format, num: nat, den: nat, key: nat)
    requires
        f.wf(),
        den > 0,
        key <= f.infinity,
        num == units(f, key) * den,
    ensures
        round(f, num, den) == key,
{
    let u = units(f, key);
    if key > 0 {
        lemma_units_next(f, (key - 1) as nat);
        let v = units(f, (key - 1) as nat);
        assert((v + u) * den < 2 * (u * den)) by (nonlinear_arith)
            requires
                v < u,
                den > 0,
        ;
    }
    lemma_units_next(f, key);
    let w = units(f, key + 1);
    assert(2 * (u * den) < (u + w) * den) by (nonlinear_arith)
        requires
            u < w,
            den > 0,
    ;
    lemma_round_is(f, num, den, key);
}

/// Rounding on the grid of one exponent: `below` is the grid point at or under the number, and
/// `up` tells whether the next one is taken.
pub proof fn lemma_round_on_grid(
    f: Format,
    num: nat,
    den: nat,
    exponent: nat,
    below: nat,
    up: bool,
)
    requires
        f.wf(),
        den > 0,
        below < 2 * hidden(f),
        exponent == 0 || below >= hidden(f),
        below * (pow2(exponent) * den) <= num < (below + 1) * (pow2(exponent) * den),
        up ==> {
            ||| (2 * below + 1) * (pow2(exponent) * den) < 2 * num
            ||| (2 * below + 1) * (pow2(exponent) * den) == 2 * num && below % 2 == 1
        },
        !up ==> {
            ||| 2 * num < (2 * below + 1) * (pow2(exponent) * den)
            ||| (2 * below + 1) * (pow2(exponent) * den) == 2 * num && below % 2 == 0
        },
    ensures
        ({
            let key = exponent * hidden(f) + below + (if up { 1nat } else { 0nat });
            round(f, num, den) == if key <= f.infinity { key } else { f.infinity as nat }
        }),
{
    let h = hidden(f);
    let scale = pow2(exponent);
    let key = exponent * h + below + (if up { 1nat } else { 0nat });
    lemma_hidden(f);
    lemma_pow2_pos(exponent);
    assert((exponent * h) % 2 == 0) by {
        assert(h == 2 * (h / 2));
        assert(exponent * h == 2 * (exponent * (h / 2))) by (nonlinear_arith)
            requires
                h == 2 * (h / 2),
        ;
    }
    lemma_units_at(f, exponent, below);
    lemma_units_at(f, exponent, below + 1);
    let lower = units(f, exponent * h + below);
    let upper = units(f, exponent * h + (below + 1));
    assert((lower + upper) * den == (2 * below + 1) * (scale * den)) by (nonlinear_arith)
        requires
            lower == below * scale,
            upper == (below + 1) * scale,
    ;
    assert(lower * den == below * (scale * den)) by (nonlinear_arith)
        requires
            lower == below * scale,
    ;
    assert(upper * den == (below + 1) * (scale * den)) by (nonlinear_arith)
        requires
            upper == (below + 1) * scale,
    ;
    // The border under the key.
    if key > 0 && !up {
        lemma_units_next(f, (key - 1) as nat);
        let v = units(f, (key - 1) as nat);
        assert((v + lower) * den < 2 * num) by (nonlinear_arith)
            requires
                v < lower,
                den > 0,
                lower * den <= num,
        ;
    }
    // The border over the key.
    if up {
        lemma_units_next(f, key);
        let w = units(f, key + 1);
        assert(2 * num < (upper + w) * den) by (nonlinear_arith)
            requires
                upper < w,
                den > 0,
                num < upper * den,
        ;
    }
    if key <= f.infinity {
        lemma_round_is(f, num, den, key);
    } else {
        let top = f.infinity as nat;
        let v = units(f, (key - 1) as nat);
        let w = units(f, key);
        let a = units(f, (top - 1) as nat);
        let b = units(f, top);
        lemma_units_increase(f, (top - 1) as nat, (key - 1) as nat);
        lemma_units_increase(f, top, key);
        assert((a + b) * den < (v + w) * den) by (nonlinear_arith)
            requires
                a < v,
                b < w,
                den > 0,
        ;
        lemma_round_is(f, num, den, top);
    }
}

} // verus!
