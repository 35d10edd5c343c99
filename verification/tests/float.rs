use argus_manager::float::{F32, F64};

fn singles() -> Vec<u32> {
    let mut v: Vec<u32> = vec![
        0, 1, 2, 0x7f_ffff, 0x80_0000, 0x80_0001, 0x3f80_0000, 0x3f7f_ffff, 0x3f80_0001,
        0x4000_0000, 0x3f00_0000, 0x3dcc_cccd, 0x4248_0000, 0x7f7f_ffff, 0x7f80_0000, 0x7fc0_0000,
        0x7f80_0001, 0x4b80_0000, 0x4b80_0001, 0x5f80_0000, 0x3c23_d70a, 0x447a_0000,
    ];
    let mut seed: u64 = 0x9e37_79b9_7f4a_7c15;
    for _ in 0..60 {
        seed = seed.wrapping_mul(6364136223846793005).wrapping_add(1442695040888963407);
        v.push((seed >> 33) as u32);
    }
    let negative: Vec<u32> = v.iter().map(|b| b | 0x8000_0000).collect();
    v.extend(negative);
    v
}

fn doubles() -> Vec<u64> {
    let mut v: Vec<u64> = vec![
        0, 1, 2, 0xf_ffff_ffff_ffff, 0x10_0000_0000_0000, 0x10_0000_0000_0001,
        0x3ff0_0000_0000_0000, 0x3fef_ffff_ffff_ffff, 0x3ff0_0000_0000_0001,
        0x4000_0000_0000_0000, 0x3fe0_0000_0000_0000, 0x3fb9_9999_9999_999a,
        0x7fef_ffff_ffff_ffff, 0x7ff0_0000_0000_0000, 0x7ff8_0000_0000_0000,
        0x7ff0_0000_0000_0001, 0x43f0_0000_0000_0000, 0x43e0_0000_0000_0000,
        0x36a0_0000_0000_0000, 0x3690_0000_0000_0000, 0x3690_0000_0000_0001,
        0x47ef_ffff_f000_0000, 0x47ef_ffff_efff_ffff, 0x3fdf_ffff_ffff_ffff, 0x4005_8000_0000_0000,
        0x4330_0000_0000_0001, 0x432f_ffff_ffff_ffff,
    ];
    let mut seed: u64 = 0x1234_5678_9abc_def1;
    for _ in 0..60 {
        seed = seed.wrapping_mul(6364136223846793005).wrapping_add(1442695040888963407);
        v.push(seed >> 1);
        v.push((seed >> 6) | 0x3f00_0000_0000_0000);
    }
    let negative: Vec<u64> = v.iter().map(|b| b | 0x8000_0000_0000_0000).collect();
    v.extend(negative);
    v
}

fn same32(got: F32, want: f32) -> bool {
    if want.is_nan() {
        f32::from_bits(got.bits).is_nan()
    } else {
        got.bits == want.to_bits()
    }
}

fn same64(got: F64, want: f64) -> bool {
    if want.is_nan() {
        f64::from_bits(got.bits).is_nan()
    } else {
        got.bits == want.to_bits()
    }
}

#[test]
fn binary32_arithmetic_is_that_of_the_machine() {
    let all = singles();
    for &a in &all {
        for &b in &all {
            let (x, y) = (F32 { bits: a }, F32 { bits: b });
            let (p, q) = (f32::from_bits(a), f32::from_bits(b));
            assert!(same32(x.plus(y), p + q), "{p:?} + {q:?}");
            assert!(same32(x.minus(y), p - q), "{p:?} - {q:?}");
            assert!(same32(x.times(y), p * q), "{p:?} * {q:?}");
            assert!(same32(x.over(y), p / q), "{p:?} / {q:?}");
            assert_eq!(x.lt(y), p < q);
            assert_eq!(x.same(y), p == q);
            assert_eq!(x == y, p == q);
            assert_eq!(x.at_least(y), p >= q);
        }
    }
}

#[test]
fn binary64_arithmetic_is_that_of_the_machine() {
    let all = doubles();
    for &a in &all {
        for &b in &all {
            let (x, y) = (F64 { bits: a }, F64 { bits: b });
            let (p, q) = (f64::from_bits(a), f64::from_bits(b));
            assert!(same64(x.plus(y), p + q), "{p:?} + {q:?}");
            assert!(same64(x.minus(y), p - q), "{p:?} - {q:?}");
            assert!(same64(x.times(y), p * q), "{p:?} * {q:?}");
            assert!(same64(x.over(y), p / q), "{p:?} / {q:?}");
            assert_eq!(x.lt(y), p < q);
            assert_eq!(x.same(y), p == q);
            assert_eq!(x == y, p == q);
            assert_eq!(x.at_least(y), p >= q);
        }
    }
}

#[test]
fn conversions_are_those_of_the_machine() {
    for &a in &singles() {
        let p = f32::from_bits(a);
        assert!(same64(F32 { bits: a }.widen(), p as f64), "{p:?}");
        if !p.is_nan() {
            assert_eq!(F32 { bits: a }.widen().narrow().bits, a);
        }
        assert_eq!(F32 { bits: a }.is_finite(), p.is_finite());
        assert_eq!(F32 { bits: a }.is_nan(), p.is_nan());
    }
    for &a in &doubles() {
        let p = f64::from_bits(a);
        assert!(same32(F64 { bits: a }.narrow(), p as f32), "{p:?}");
        assert_eq!(F64 { bits: a }.rounded(), p.round() as i64, "{p:?}");
        assert_eq!(F64 { bits: a }.is_finite(), p.is_finite());
        assert_eq!(F64 { bits: a }.is_nan(), p.is_nan());
    }
    let wholes: Vec<u64> = vec![
        0, 1, 2, 3, 7, 100, 1000, 4096, 16_777_215, 16_777_216, 16_777_217, 16_777_219,
        9_007_199_254_740_992, 9_007_199_254_740_993, 9_007_199_254_740_995, u32::MAX as u64,
        i64::MAX as u64, u64::MAX - 1, u64::MAX, 0xffff_ff80_0000_0000, 0xffff_ff7f_ffff_ffff,
    ];
    for n in wholes {
        assert!(same32(F32::from_whole(n), n as f32), "{n}");
        assert!(same64(F64::from_whole(n), n as f64), "{n}");
    }
    let signed: Vec<i32> = vec![0, 1, -1, 55_000, -273_150, 16_777_217, -16_777_217, i32::MAX, i32::MIN];
    for n in signed {
        assert!(same32(F32::from_signed(n), n as f32), "{n}");
        assert!(same64(F64::from_signed(n), n as f64), "{n}");
    }
}

#[test]
fn halves_round_away_from_zero() {
    let cases: Vec<(f64, i64)> = vec![
        (0.5, 1), (-0.5, -1), (1.5, 2), (2.5, 3), (-2.5, -3), (0.49999999999999994, 0),
        (4503599627370495.5, 4503599627370496), (1e300, i64::MAX), (-1e300, i64::MIN),
        (f64::NAN, 0), (f64::INFINITY, i64::MAX), (f64::NEG_INFINITY, i64::MIN),
        (9223372036854775807.0, i64::MAX), (-9223372036854775808.0, i64::MIN),
    ];
    for (x, want) in cases {
        assert_eq!(F64 { bits: x.to_bits() }.rounded(), want, "{x}");
    }
}

#[test]
fn clamping_keeps_what_is_inside() {
    let f = |x: f32| F32 { bits: x.to_bits() };
    let g = |x: f64| F64 { bits: x.to_bits() };
    assert_eq!(f(0.5).clamped(f(0.0), f(1.0)).bits, 0.5f32.to_bits());
    assert_eq!(f(-3.0).clamped(f(0.0), f(1.0)).bits, 0.0f32.to_bits());
    assert_eq!(f(3.0).clamped(f(0.0), f(1.0)).bits, 1.0f32.to_bits());
    assert!(f(f32::NAN).clamped(f(0.0), f(1.0)).is_nan());
    assert_eq!(g(150.0).clamped(g(0.0), g(100.0)).bits, 100.0f64.to_bits());
    assert_eq!(g(-0.0).clamped(g(0.0), g(100.0)).bits, (-0.0f64).to_bits());
}
