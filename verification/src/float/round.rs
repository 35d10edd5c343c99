//! Rounding of a number given by its leading bits.

use crate::float::model::{hidden, lemma_hidden, lemma_round_on_grid, round, Format};
use vstd::arithmetic::power2::{
    lemma_pow2_adds, lemma_pow2_pos, lemma_pow2_strictly_increases, lemma_pow2_unfold, pow2,
};
use vstd::prelude::*;

verus! {

/// `num / den` is `significand` times two to the power of `shift`, and a little more where
/// `inexact` says so: less than one in the last place of the significand.
pub open spec fn leads(
    significand: nat,
    shift: int,
    inexact: bool,
    num: nat,
    den: nat,
) -> bool {
    let a = pow2(if shift >= 0 { shift as nat } else { 0 });
    let b = pow2(if shift >= 0 { 0 } else { (-shift) as nat });
    &&& significand * (a * den) <= num * b < (significand + 1) * (a * den)
    &&& inexact <==> significand * (a * den) != num * b
}

pub proof fn lemma_pow2_small()
    ensures
        pow2(0) == 1,
        pow2(1) == 2,
        pow2(52) == 0x10_0000_0000_0000,
        pow2(53) == 0x20_0000_0000_0000,
        pow2(63) == 0x8000_0000_0000_0000,
        pow2(64) == 0x1_0000_0000_0000_0000,
        pow2(120) == 0x100_0000_0000_0000_0000_0000_0000_0000,
        pow2(127) == 0x8000_0000_0000_0000_0000_0000_0000_0000,
{
    vstd::arithmetic::power2::lemma2_to64();
    vstd::arithmetic::power2::lemma2_to64_rest();
    lemma_pow2_adds(60, 60);
    lemma_pow2_adds(64, 63);
}

pub proof fn lemma_pow2_mono(a: nat, b: nat)
    requires
        a <= b,
    ensures
        pow2(a) <= pow2(b),
{
    if a < b {
        lemma_pow2_strictly_increases(a, b);
    }
}

/// Two to the power of `e`.
pub fn power_of_two(e: u32) -> (r: u128)
    requires
        e <= 127,
    ensures
        r == pow2(e as nat),
{
    let mut i: u32 = 0;
    let mut r: u128 = 1;
    proof {
        lemma_pow2_small();
    }
    while i < e
        invariant
            i <= e <= 127,
            r == pow2(i as nat),
        decreases e - i,
    {
        proof {
            lemma_pow2_unfold((i + 1) as nat);
            lemma_pow2_mono((i + 1) as nat, 127);
            lemma_pow2_small();
        }
        r = r * 2;
        i = i + 1;
    }
    r
}

/// How many bits `n` has up to its highest one.
pub fn bit_length(n: u128) -> (r: u32)
    requires
        n < 0x100_0000_0000_0000_0000_0000_0000_0000,
    ensures
        r <= 120,
        n < pow2(r as nat),
        n > 0 ==> r > 0 && pow2((r - 1) as nat) <= n,
        n == 0 ==> r == 0,
{
    let mut r: u32 = 0;
    let mut bound: u128 = 1;
    proof {
        lemma_pow2_small();
    }
    while bound <= n
        invariant
            n < 0x100_0000_0000_0000_0000_0000_0000_0000,
            r <= 120,
            bound == pow2(r as nat),
            r > 0 ==> pow2((r - 1) as nat) <= n,
            n == 0 ==> r == 0,
        decreases 120 - r,
    {
        proof {
            lemma_pow2_small();
            if r >= 120 {
                lemma_pow2_mono(120, r as nat);
            }
            lemma_pow2_unfold((r + 1) as nat);
            lemma_pow2_mono((r + 1) as nat, 120);
        }
        bound = bound * 2;
        r = r + 1;
    }
    r
}

/// The facts of [`leads`] on a coarser grid, where the significand keeps its `drop` highest
/// places: `kept` of them, with `rest` behind.
proof fn lemma_coarser(
    significand: nat,
    shift: int,
    inexact: bool,
    num: nat,
    den: nat,
    exponent: nat,
    drop: nat,
    kept: nat,
    rest: nat,
)
    requires
        den > 0,
        leads(significand, shift, inexact, num, den),
        drop == exponent - shift,
        drop > 0,
        significand == kept * pow2(drop) + rest,
        rest < pow2(drop),
    ensures
        ({
            let grid = pow2(exponent) * den;
            let half = pow2((drop - 1) as nat);
            &&& kept * grid <= num < (kept + 1) * grid
            &&& rest > half || (rest == half && inexact) ==> (2 * kept + 1) * grid < 2 * num
            &&& rest == half && !inexact ==> (2 * kept + 1) * grid == 2 * num
            &&& rest < half ==> 2 * num < (2 * kept + 1) * grid
        }),
{
    let a = pow2(if shift >= 0 { shift as nat } else { 0 });
    let b = pow2(if shift >= 0 { 0 } else { (-shift) as nat });
    let d = pow2(drop);
    let half = pow2((drop - 1) as nat);
    let fine = a * den;
    let grid = pow2(exponent) * den;
    lemma_pow2_small();
    lemma_pow2_unfold(drop);
    if shift >= 0 {
        lemma_pow2_adds(drop, shift as nat);
        assert(pow2(exponent) == d * a);
        assert(pow2(exponent) * b == d * a);
    } else {
        lemma_pow2_adds(exponent, (-shift) as nat);
        assert(pow2(exponent) * b == d);
        assert(d * a == d);
    }
    lemma_pow2_pos(if shift >= 0 { 0 } else { (-shift) as nat });
    lemma_pow2_pos(if shift >= 0 { shift as nat } else { 0 });
    assert(grid * b == d * fine) by (nonlinear_arith)
        requires
            grid == pow2(exponent) * den,
            fine == a * den,
            pow2(exponent) * b == d * a,
    ;
    assert(fine > 0) by (nonlinear_arith)
        requires
            fine == a * den,
            a > 0,
            den > 0,
    ;
    let n = num * b;
    let s = significand;
    // The same comparisons, all multiplied by `b`.
    assert((kept * grid) * b == kept * (d * fine)) by (nonlinear_arith)
        requires
            grid * b == d * fine,
    ;
    assert(((kept + 1) * grid) * b == (kept + 1) * (d * fine)) by (nonlinear_arith)
        requires
            grid * b == d * fine,
    ;
    assert(((2 * kept + 1) * grid) * b == (2 * kept + 1) * (d * fine)) by (nonlinear_arith)
        requires
            grid * b == d * fine,
    ;
    assert((2 * num) * b == 2 * n) by (nonlinear_arith)
        requires
            n == num * b,
    ;
    assert(s * fine == kept * (d * fine) + rest * fine) by (nonlinear_arith)
        requires
            s == kept * d + rest,
    ;
    assert((s + 1) * fine == s * fine + fine) by (nonlinear_arith);
    assert((kept + 1) * (d * fine) == kept * (d * fine) + d * fine) by (nonlinear_arith);
    assert((2 * kept + 1) * (d * fine) == 2 * (kept * (d * fine)) + d * fine)
        by (nonlinear_arith);
    assert(d * fine == 2 * (half * fine)) by (nonlinear_arith)
        requires
            d == 2 * half,
    ;
    assert(rest * fine >= 0 && rest * fine + fine <= d * fine) by (nonlinear_arith)
        requires
            rest + 1 <= d,
            rest >= 0,
            fine > 0,
    ;
    if rest > half {
        assert(rest * fine >= half * fine + fine) by (nonlinear_arith)
            requires
                rest >= half + 1,
                fine > 0,
        ;
    }
    if rest < half {
        assert(rest * fine + fine <= half * fine) by (nonlinear_arith)
            requires
                rest + 1 <= half,
                fine > 0,
        ;
    }
    lemma_cancel(kept * grid, num, b);
    lemma_cancel(num, (kept + 1) * grid, b);
    lemma_cancel((2 * kept + 1) * grid, 2 * num, b);
    lemma_cancel(2 * num, (2 * kept + 1) * grid, b);
    lemma_cancel((kept + 1) * grid, num, b);
}

/// A positive factor does not change how two numbers compare.
proof fn lemma_cancel(x: nat, y: nat, b: nat)
    requires
        b > 0,
    ensures
        x * b <= y * b <==> x <= y,
        x * b == y * b <==> x == y,
{
    assert(x * b <= y * b <==> x <= y) by (nonlinear_arith)
        requires
            b > 0,
    ;
    assert(y * b <= x * b <==> y <= x) by (nonlinear_arith)
        requires
            b > 0,
    ;
}

/// Rounds the number that [`leads`] describes.
pub(crate) fn round_leading(
    f: Format,
    significand: u128,
    shift: i32,
    inexact: bool,
    Ghost(num): Ghost<nat>,
    Ghost(den): Ghost<nat>,
) -> (key: u64)
    requires
        f.wf(),
        0 < significand < 0x100_0000_0000_0000_0000_0000_0000_0000,
        -10000 <= shift <= 10000,
        den > 0,
        leads(significand as nat, shift as int, inexact, num, den),
        inexact ==> significand >= 2 * hidden(f),
    ensures
        key == round(f, num, den),
        key <= f.infinity,
{
    let p: i32 = f.precision as i32;
    let n: i32 = bit_length(significand) as i32;
    let over: i32 = n + shift - p;
    let exponent: i32 = if over > 0 {
        over
    } else {
        0
    };
    let drop: i32 = exponent - shift;
    let h: u128 = power_of_two(f.precision - 1);
    proof {
        lemma_hidden(f);
        lemma_pow2_small();
        lemma_pow2_mono((f.precision - 1) as nat, 52);
    }
    let below: u128;
    let up: bool;
    if drop <= 0 {
        // Every place of the significand is kept.
        proof {
            if inexact {
                if n <= p {
                    lemma_pow2_mono(n as nat, p as nat);
                }
            }
            assert(!inexact);
            assert(0 <= -drop <= 53);
            lemma_pow2_adds(n as nat, (-drop) as nat);
            lemma_pow2_mono((n - drop) as nat, p as nat);
            let w = pow2((-drop) as nat);
            lemma_pow2_pos((-drop) as nat);
            assert(significand * w < pow2(n as nat) * w) by (nonlinear_arith)
                requires
                    significand < pow2(n as nat),
                    w > 0,
            ;
        }
        let w: u128 = power_of_two((-drop) as u32);
        below = significand * w;
        up = false;
        proof {
            let grid = pow2(exponent as nat) * den;
            lemma_pow2_adds(exponent as nat, (-drop) as nat);
            assert(below * grid == num) by (nonlinear_arith)
                requires
                    below == significand * w,
                    grid == pow2(exponent as nat) * den,
                    significand * ((pow2(exponent as nat) * w) * den) == num * 1,
            ;
            lemma_pow2_pos(exponent as nat);
            assert(grid > 0) by (nonlinear_arith)
                requires
                    grid == pow2(exponent as nat) * den,
                    pow2(exponent as nat) > 0,
                    den > 0,
            ;
            assert((below + 1) * grid == below * grid + grid) by (nonlinear_arith);
            assert((2 * below + 1) * grid == 2 * (below * grid) + grid) by (nonlinear_arith);
            if exponent > 0 {
                // p - n places are added, so the highest bit lands on the implicit one.
                lemma_pow2_adds((n - 1) as nat, (-drop) as nat);
                assert(pow2((n - 1) as nat) * w <= significand * w) by (nonlinear_arith)
                    requires
                        pow2((n - 1) as nat) <= significand,
                        w > 0,
                ;
            }
        }
    } else if drop <= 126 {
        let d: u128 = power_of_two(drop as u32);
        let half: u128 = power_of_two((drop - 1) as u32);
        proof {
            lemma_pow2_pos(drop as nat);
            vstd::arithmetic::div_mod::lemma_fundamental_div_mod(significand as int, d as int);
        }
        below = significand / d;
        let rest: u128 = significand % d;
        up = rest > half || (rest == half && (inexact || below % 2 == 1));
        proof {
            assert(significand == below * d + rest) by (nonlinear_arith)
                requires
                    significand == d * below + rest,
            ;
            lemma_coarser(
                significand as nat,
                shift as int,
                inexact,
                num,
                den,
                exponent as nat,
                drop as nat,
                below as nat,
                rest as nat,
            );
            lemma_kept(significand as nat, n as nat, p as nat, drop as nat, below as nat, rest as nat);
            if exponent > 0 {
                assert(drop == n - p);
            } else {
                assert(n - drop <= p);
                lemma_pow2_mono(if n >= drop { (n - drop) as nat } else { 0 }, p as nat);
            }
        }
    } else {
        // Every place is dropped: the number is below half a unit.
        below = 0;
        up = false;
        proof {
            assert(exponent == 0) by {
                if exponent > 0 {
                    assert(drop == n - p);
                }
            }
            lemma_pow2_mono(126, (drop - 1) as nat);
            lemma_pow2_unfold(drop as nat);
            lemma_pow2_unfold(127);
            lemma_coarser(
                significand as nat,
                shift as int,
                inexact,
                num,
                den,
                0,
                drop as nat,
                0,
                significand as nat,
            );
        }
    }
    proof {
        lemma_round_on_grid(f, num, den, exponent as nat, below as nat, up);
        assert(exponent as nat * hidden(f) <= 10120 * 0x10_0000_0000_0000) by (nonlinear_arith)
            requires
                exponent <= 10120,
                0 <= exponent,
                hidden(f) <= 0x10_0000_0000_0000,
        ;
    }
    let mut key: u128 = (exponent as u128) * h + below;
    if up {
        key = key + 1;
    }
    if key <= f.infinity as u128 {
        key as u64
    } else {
        f.infinity
    }
}

/// The places that are kept when `drop` of `n` are dropped.
proof fn lemma_kept(significand: nat, n: nat, p: nat, drop: nat, kept: nat, rest: nat)
    requires
        n > 0,
        pow2((n - 1) as nat) <= significand < pow2(n),
        significand == kept * pow2(drop) + rest,
        rest < pow2(drop),
    ensures
        kept < pow2(if n >= drop { (n - drop) as nat } else { 0 }),
        n > drop ==> pow2((n - 1 - drop) as nat) <= kept,
{
    let d = pow2(drop);
    lemma_pow2_pos(drop);
    if n >= drop {
        let k = pow2((n - drop) as nat);
        lemma_pow2_adds((n - drop) as nat, drop);
        assert(kept < k) by (nonlinear_arith)
            requires
                kept * d <= significand,
                significand < k * d,
                d > 0,
        ;
    } else {
        lemma_pow2_small();
        lemma_pow2_strictly_increases(n, drop);
        assert(kept < 1) by (nonlinear_arith)
            requires
                kept * d <= significand,
                significand < d,
                d > 0,
        ;
    }
    if n > drop {
        let k = pow2((n - 1 - drop) as nat);
        lemma_pow2_adds((n - 1 - drop) as nat, drop);
        assert((kept + 1) * d == kept * d + d) by (nonlinear_arith);
        assert(k <= kept) by (nonlinear_arith)
            requires
                k * d <= significand,
                significand < (kept + 1) * d,
                d > 0,
        {
            assert(k * d < (kept + 1) * d);
        }
    }
}

} // verus!
