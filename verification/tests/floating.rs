//! Floating-point arithmetic against the host's.

use riscbox::softfp::{
    add_f32, add_f64, class_f64, div_f64, eq_f64, f32_to_f64, f64_to_i32, fma_f64, i32_to_f32,
    i32_to_f64, lt_f64, max_f64, min_f64, mul_f32, mul_f64, sqrt_f64, sub_f64, u64_to_f64,
    RoundingMode, FLAG_DIVIDE_ZERO, FLAG_INEXACT, FLAG_INVALID, FLAG_OVERFLOW, FLAG_UNDERFLOW,
};

const VALUES: [f64; 14] = [
    0.0,
    -0.0,
    1.0,
    -1.5,
    0.1,
    3.0,
    1.0e300,
    -2.5e-300,
    123_456_789.125,
    1.0e-10,
    f64::MAX,
    f64::MIN_POSITIVE,
    f64::INFINITY,
    f64::NEG_INFINITY,
];

fn same(bits: u64, expected: f64) -> bool {
    if expected.is_nan() {
        f64::from_bits(bits).is_nan()
    } else {
        bits == expected.to_bits()
    }
}

#[test]
fn sums_and_products_are_those_of_the_host() {
    let mode = RoundingMode::NearEven;
    for a in VALUES {
        for b in VALUES {
            let mut flags = 0;
            let (x, y) = (a.to_bits(), b.to_bits());
            assert!(same(add_f64(x, y, mode, &mut flags), a + b), "{a} + {b}");
            assert!(same(sub_f64(x, y, mode, &mut flags), a - b), "{a} - {b}");
            assert!(same(mul_f64(x, y, mode, &mut flags), a * b), "{a} * {b}");
            assert!(same(div_f64(x, y, mode, &mut flags), a / b), "{a} / {b}");
            assert_eq!(lt_f64(x, y, &mut flags), a < b);
            assert_eq!(eq_f64(x, y, &mut flags), a == b);
            assert_eq!(
                add_f64(x, y, mode, &mut flags),
                add_f64(y, x, mode, &mut flags)
            );
        }
    }
}

#[test]
fn roots_are_those_of_the_host() {
    for a in VALUES {
        let mut flags = 0;
        assert!(same(sqrt_f64(a.to_bits(), RoundingMode::NearEven, &mut flags), a.sqrt()), "{a}");
    }
}

#[test]
fn single_precision_rounds_once() {
    let mut flags = 0;
    for (a, b) in [(0.1_f32, 0.2_f32), (1.0e38, 1.0e38), (1.0e-30, 3.0e-30)] {
        let mode = RoundingMode::NearEven;
        assert_eq!(add_f32(a.to_bits(), b.to_bits(), mode, &mut flags), (a + b).to_bits());
        assert_eq!(mul_f32(a.to_bits(), b.to_bits(), mode, &mut flags), (a * b).to_bits());
    }
    assert_eq!(
        i32_to_f32(16_777_217, RoundingMode::NearEven, &mut flags),
        16_777_216.0_f32.to_bits()
    );
}

#[test]
fn fused_products_round_once() {
    let a = 1.0 + f64::EPSILON;
    for c in [-1.0, -a, 1.0e-20, -1.0e-25, -3.0e-18, 1.0e-300] {
        let mut flags = 0;
        let bits = fma_f64(
            a.to_bits(),
            a.to_bits(),
            f64::to_bits(c),
            RoundingMode::NearEven,
            &mut flags,
        );
        assert_eq!(bits, a.mul_add(a, c).to_bits(), "{c}");
    }
}

#[test]
fn fused_additions_round_once() {
    let values = [1.0_f64, 1.5, 0.1, 3.0e10, 7.0e-12, 1.0 + f64::EPSILON, 1.0e100];
    for a in values {
        for b in values {
            for c in values {
                let mut flags = 0;
                let mode = RoundingMode::NearEven;
                let bits = fma_f64(a.to_bits(), b.to_bits(), c.to_bits(), mode, &mut flags);
                assert_eq!(bits, a.mul_add(b, c).to_bits(), "{a} * {b} + {c}");
                let bits = fma_f64((-a).to_bits(), b.to_bits(), (-c).to_bits(), mode, &mut flags);
                assert_eq!(bits, (-a).mul_add(b, -c).to_bits(), "-{a} * {b} - {c}");
            }
        }
    }
}

#[test]
fn widening_is_exact() {
    for value in [0.1_f32, -1.0e-40, 3.4e38, f32::INFINITY, -0.0] {
        let mut flags = 0;
        let bits = f32_to_f64(value.to_bits(), &mut flags);
        assert_eq!(bits, f64::from(value).to_bits());
        assert_eq!(flags, 0);
    }
}

#[test]
fn rounding_modes_differ() {
    let (one, three) = (1.0_f64.to_bits(), 3.0_f64.to_bits());
    let mut flags = 0;
    let down = div_f64(one, three, RoundingMode::Down, &mut flags);
    let up = div_f64(one, three, RoundingMode::Up, &mut flags);
    assert_eq!(up, down + 1);
    assert_eq!(div_f64(one, three, RoundingMode::Zero, &mut flags), down);
    assert_eq!(flags, FLAG_INEXACT);
}

#[test]
fn exceptions_are_flagged() {
    let mode = RoundingMode::NearEven;
    let mut flags = 0;
    div_f64(1.0_f64.to_bits(), 0, mode, &mut flags);
    assert_eq!(flags, FLAG_DIVIDE_ZERO);
    let mut flags = 0;
    sqrt_f64((-1.0_f64).to_bits(), mode, &mut flags);
    assert_eq!(flags, FLAG_INVALID);
    let mut flags = 0;
    mul_f64(f64::MAX.to_bits(), f64::MAX.to_bits(), mode, &mut flags);
    assert_eq!(flags, FLAG_OVERFLOW | FLAG_INEXACT);
}

#[test]
fn integers_saturate() {
    let mut flags = 0;
    let mode = RoundingMode::NearEven;
    assert_eq!(f64_to_i32(2.5_f64.to_bits(), mode, &mut flags), 2);
    assert_eq!(flags, FLAG_INEXACT);
    assert_eq!(f64_to_i32((-2.5_f64).to_bits(), RoundingMode::NearMaxMag, &mut flags), -3);
    assert_eq!(f64_to_i32(1.0e10_f64.to_bits(), mode, &mut flags), i32::MAX);
    assert_eq!(flags & FLAG_INVALID, FLAG_INVALID);
    assert_eq!(f64_to_i32(f64::NEG_INFINITY.to_bits(), mode, &mut flags), i32::MIN);
}

#[test]
fn extremes_and_classes() {
    let mut flags = 0;
    assert_eq!(min_f64(0, (-0.0_f64).to_bits(), &mut flags), (-0.0_f64).to_bits());
    assert_eq!(max_f64(0, (-0.0_f64).to_bits(), &mut flags), 0);
    assert_eq!(max_f64(f64::NAN.to_bits(), 1.0_f64.to_bits(), &mut flags), 1.0_f64.to_bits());
    assert_eq!(class_f64(f64::NEG_INFINITY.to_bits()), 1);
    assert_eq!(class_f64((-1.0_f64).to_bits()), 2);
    assert_eq!(class_f64((-0.0_f64).to_bits()), 8);
    assert_eq!(class_f64(0), 16);
    assert_eq!(class_f64(1), 32);
    assert_eq!(class_f64(f64::INFINITY.to_bits()), 128);
    assert_eq!(class_f64(f64::NAN.to_bits()), 512);
}

#[test]
fn cancelling_addends_leave_the_exact_rest() {
    let mut flags = 0;
    let a = 0x3ff0_0000_0000_0001;
    let c = 0xbff0_0000_0000_0002;
    assert_eq!(fma_f64(a, a, c, RoundingMode::NearEven, &mut flags), 0x3970_0000_0000_0000);
    assert_eq!(flags, 0);
}

#[test]
fn subnormal_dividends_keep_their_precision() {
    let mut flags = 0;
    let mode = RoundingMode::NearEven;
    assert_eq!(div_f64(1, 0x0018_0000_0000_0000, mode, &mut flags), 0x3ca5_5555_5555_5555);
    assert_eq!(flags, FLAG_INEXACT);
    for dividend in [1_u64, 3, 0x7_ffff_ffff, 0xf_ffff_ffff_ffff] {
        for divisor in [1_u64, 7, 0x0018_0000_0000_0001, 0x3ff8_0000_0000_0000] {
            let expected = f64::from_bits(dividend) / f64::from_bits(divisor);
            assert_eq!(div_f64(dividend, divisor, mode, &mut flags), expected.to_bits());
        }
    }
}

#[test]
fn underflow_is_judged_after_rounding() {
    let mut flags = 0;
    let mode = RoundingMode::NearEven;
    let least_normal = 0x0010_0000_0000_0000;
    assert_eq!(mul_f64(0x3fef_ffff_ffff_ffff, least_normal, mode, &mut flags), least_normal);
    assert_eq!(flags, FLAG_UNDERFLOW | FLAG_INEXACT);
}

#[test]
fn integers_survive_a_round_trip() {
    let mode = RoundingMode::NearEven;
    for n in [0, 1, -1, 123_456_789, i32::MAX, i32::MIN] {
        let mut flags = 0;
        let bits = i32_to_f64(n, mode, &mut flags);
        assert_eq!(bits, f64::from(n).to_bits());
        assert_eq!(f64_to_i32(bits, RoundingMode::Zero, &mut flags), n);
        assert_eq!(flags, 0);
    }
    let mut flags = 0;
    assert_eq!(f64_to_i32(f64::NAN.to_bits(), mode, &mut flags), i32::MAX);
    assert_eq!(flags, FLAG_INVALID);
}

#[test]
fn wide_integers_round_to_the_nearest() {
    let mode = RoundingMode::NearEven;
    for n in [u64::MAX, u64::MAX - 1024, (1 << 63) + 1025, (1 << 53) + 1, 1] {
        let mut flags = 0;
        assert_eq!(u64_to_f64(n, mode, &mut flags), (n as f64).to_bits());
        assert_eq!(flags != 0, n as f64 as u128 != u128::from(n));
    }
}
