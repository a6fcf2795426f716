//! The arithmetic of [`Float`] against the machine's own.
use replay_candles::binary64::Float;
use replay_candles::decimal::{count_text, fixed_text};

fn fl(x: f64) -> Float {
    Float { bits: x.to_bits() }
}

/// Numbers of every sort: zeros, subnormals, ordinary ones, huge ones and what is no number.
fn samples() -> Vec<f64> {
    let mut v = vec![
        0.0,
        -0.0,
        1.0,
        -1.0,
        0.1,
        0.2,
        0.3,
        1.1050,
        1.1000,
        -0.48,
        0.52,
        1e-9,
        1e9,
        1e300,
        -1e300,
        1e-300,
        1.5,
        2.5,
        0.125,
        99.995,
        1234567.891,
        f64::MIN_POSITIVE,
        f64::MAX,
        f64::MIN,
        f64::from_bits(1),
        f64::from_bits(0x000f_ffff_ffff_ffff),
        f64::from_bits(0x0010_0000_0000_0001),
        f64::EPSILON,
        f64::INFINITY,
        f64::NEG_INFINITY,
        f64::NAN,
        9007199254740993.0,
        4503599627370496.5,
    ];
    // A fixed walk over the bit patterns.
    let mut x: u64 = 0x9e37_79b9_7f4a_7c15;
    for _ in 0..60 {
        x ^= x << 13;
        x ^= x >> 7;
        x ^= x << 17;
        v.push(f64::from_bits(x));
        // Near one, so that sums cancel and round.
        v.push(f64::from_bits(0x3fe0_0000_0000_0000 | (x >> 12)));
    }
    v
}

fn same(got: Float, want: f64) -> bool {
    if want.is_nan() {
        f64::from_bits(got.bits).is_nan()
    } else {
        got.bits == want.to_bits()
    }
}

#[test]
fn arithmetic_is_the_machine_arithmetic() {
    for &x in &samples() {
        for &y in &samples() {
            assert!(same(fl(x).plus(fl(y)), x + y), "{x:e} + {y:e}");
            assert!(same(fl(x).minus(fl(y)), x - y), "{x:e} - {y:e}");
            assert!(same(fl(x).times(fl(y)), x * y), "{x:e} * {y:e}");
            assert!(same(fl(x).over(fl(y)), x / y), "{x:e} / {y:e}");
            assert!(same(fl(x).max(fl(y)), x.max(y)) || x == y, "max {x:e} {y:e}");
        }
    }
}

#[test]
fn comparisons_are_the_machine_comparisons() {
    for &x in &samples() {
        for &y in &samples() {
            assert_eq!(fl(x).lt(fl(y)), x < y, "{x:e} < {y:e}");
            assert_eq!(fl(x).le(fl(y)), x <= y, "{x:e} <= {y:e}");
            assert_eq!(fl(x).eq_value(fl(y)), x == y, "{x:e} == {y:e}");
        }
        assert_eq!(fl(x).is_nan(), x.is_nan());
        assert_eq!(fl(x).is_finite(), x.is_finite());
        assert!(same(fl(x).abs(), x.abs()));
        assert!(same(fl(x).neg(), -x));
    }
}

#[test]
fn conversions_are_the_machine_conversions() {
    for &x in &samples() {
        assert_eq!(fl(x).ceil_i64(), x.ceil() as i64, "ceil {x:e}");
        assert_eq!(fl(x).floor_u32(), x.floor() as u32, "floor {x:e}");
    }
    for x in [0.5, 1.0, 1.000001, -0.5, -1.5, 4294967295.5, 4294967296.0, 9.3e18, -9.3e18, 9.2e18] {
        assert_eq!(fl(x).ceil_i64(), f64::ceil(x) as i64, "ceil {x:e}");
        assert_eq!(fl(x).floor_u32(), f64::floor(x) as u32, "floor {x:e}");
    }
    for i in [0, 1, -1, 900, i64::MAX, i64::MIN, (1 << 53) + 1, -((1 << 54) + 2), 86_400] {
        assert!(same(Float::from_i64(i), i as f64), "{i}");
    }
    for n in [0, 1, u64::MAX, (1 << 53) + 1, 1 << 63] {
        assert!(same(Float::from_u64(n), n as f64), "{n}");
    }
}

#[test]
fn decimals_are_the_formatter_s() {
    let mut values = samples();
    values.extend([0.005, 0.015, 0.025, 0.045, 1.005, 2.675, 0.25, 0.75, 1.25, 0.5, 1.5, 2.5]);
    values.extend([-0.001, -0.005, 250_000.0, 999.995, 7.875, 0.994999, 0.995, 9.995, 99.5]);
    for x in values {
        assert_eq!(fixed_text(fl(x), 0, false), format!("{x:.0}"), "{x:e}");
        assert_eq!(fixed_text(fl(x), 1, false), format!("{x:.1}"), "{x:e}");
        assert_eq!(fixed_text(fl(x), 2, false), format!("{x:.2}"), "{x:e}");
        assert_eq!(fixed_text(fl(x), 0, true), format!("{x:+.0}"), "{x:e}");
        assert_eq!(fixed_text(fl(x), 2, true), format!("{x:+.2}"), "{x:e}");
    }
}

#[test]
fn counts_are_decimal() {
    for n in [0, 1, 9, 10, 99, 100, 12_345, u64::MAX] {
        assert_eq!(count_text(n), format!("{n}"));
    }
}
