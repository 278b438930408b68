use sbrga::binary32::clamp;
use sbrga::binary32::exceeds;
use sbrga::binary32::from_whole;
use sbrga::binary32::less;
use sbrga::binary32::nearest_whole;
use sbrga::binary32::quantise;

fn samples() -> Vec<f32> {
    let mut v = vec![
        0.0,
        -0.0,
        f32::MIN_POSITIVE,
        1.0e-40,
        1.0e-10,
        0.000015258789,
        0.00001525879,
        0.1,
        0.25,
        0.49999997,
        0.5,
        0.50000006,
        0.75,
        1.0,
        1.4999999,
        1.5,
        2.5,
        3.1415927,
        7.999999,
        100.0,
        255.5,
        1023.75,
        65535.0,
        65535.996,
        65536.0,
        8388607.5,
        8388608.0,
        16777216.0,
        1.0e9,
        1.0e12,
        1.0995116e12,
        1.0e20,
        f32::MAX,
    ];
    let mut x = 0.37_f32;
    for _ in 0..200 {
        x = x * 1.37 + 0.011;
        if x > 60000.0 {
            x = x / 59000.0;
        }
        v.push(x);
    }
    v
}

#[test]
fn quantise_rounds_down_to_sixteen_fraction_bits() {
    for x in samples() {
        let expected = if x < 65536.0 {
            Some((x as f64 * 65536.0).floor() as u32)
        } else {
            None
        };
        assert_eq!(quantise(x.to_bits()), expected, "x = {}", x);
    }
}

#[test]
fn quantise_exact_values() {
    assert_eq!(quantise(1.5_f32.to_bits()), Some(98304));
    assert_eq!(quantise(1.0_f32.to_bits()), Some(65536));
    assert_eq!(quantise(0.0_f32.to_bits()), Some(0));
    assert_eq!(quantise((-0.0_f32).to_bits()), Some(0));
    assert_eq!(quantise(65535.996_f32.to_bits()), Some(0xFFFF_FFFF - 255));
}

#[test]
fn quantise_refuses_what_is_off_the_scale() {
    assert_eq!(quantise(f32::NAN.to_bits()), None);
    assert_eq!(quantise(f32::INFINITY.to_bits()), None);
    assert_eq!(quantise(f32::NEG_INFINITY.to_bits()), None);
    assert_eq!(quantise((-1.0_f32).to_bits()), None);
    assert_eq!(quantise((-1.0e-40_f32).to_bits()), None);
    assert_eq!(quantise(65536.0_f32.to_bits()), None);
    assert_eq!(quantise(f32::MAX.to_bits()), None);
}

#[test]
fn exceeds_orders_as_the_numbers_do() {
    let v = samples();
    for &a in &v {
        for &b in &v {
            let expected = if a.is_sign_negative() || b.is_sign_negative() {
                None
            } else {
                Some(a > b)
            };
            assert_eq!(exceeds(a.to_bits(), b.to_bits()), expected, "a = {}, b = {}", a, b);
        }
    }
}

#[test]
fn exceeds_has_no_answer_for_what_is_no_magnitude() {
    let one = 1.0_f32.to_bits();
    assert_eq!(exceeds(f32::NAN.to_bits(), one), None);
    assert_eq!(exceeds(one, f32::NAN.to_bits()), None);
    assert_eq!(exceeds(f32::INFINITY.to_bits(), one), None);
    assert_eq!(exceeds(one, (-1.0_f32).to_bits()), None);
    assert_eq!(exceeds((-0.0_f32).to_bits(), one), None);
    assert_eq!(exceeds(one, one), Some(false));
    assert_eq!(exceeds(2.5_f32.to_bits(), 2.0_f32.to_bits()), Some(true));
}

#[test]
fn nearest_whole_rounds_half_away_from_zero() {
    for x in samples() {
        for s in [x, -x] {
            let rounded = s.round() as f64;
            let expected = if rounded.abs() < 1099511627776.0 {
                Some(rounded as i64)
            } else {
                None
            };
            assert_eq!(nearest_whole(s.to_bits()), expected, "x = {}", s);
        }
    }
}

#[test]
fn nearest_whole_exact_values() {
    assert_eq!(nearest_whole(0.5_f32.to_bits()), Some(1));
    assert_eq!(nearest_whole(0.49999997_f32.to_bits()), Some(0));
    assert_eq!(nearest_whole(1.5_f32.to_bits()), Some(2));
    assert_eq!(nearest_whole(2.5_f32.to_bits()), Some(3));
    assert_eq!(nearest_whole((-2.5_f32).to_bits()), Some(-3));
    assert_eq!(nearest_whole((-0.4_f32).to_bits()), Some(0));
    assert_eq!(nearest_whole(3.0_f32.to_bits()), Some(3));
    assert_eq!(nearest_whole(16777216.0_f32.to_bits()), Some(16777216));
    assert_eq!(nearest_whole(f32::NAN.to_bits()), None);
    assert_eq!(nearest_whole(f32::INFINITY.to_bits()), None);
    assert_eq!(nearest_whole(1.0e20_f32.to_bits()), None);
}

#[test]
fn from_whole_gives_the_pattern_of_a_whole_number() {
    assert_eq!(from_whole(0), Some(0));
    assert_eq!(from_whole(1), Some(1.0_f32.to_bits()));
    assert_eq!(from_whole(2), Some(2.0_f32.to_bits()));
    assert_eq!(from_whole(3), Some(3.0_f32.to_bits()));
    assert_eq!(from_whole(1000), Some(1000.0_f32.to_bits()));
    assert_eq!(from_whole(0xFF_FFFF), Some(16777215.0_f32.to_bits()));
    assert_eq!(from_whole(0x100_0000), None);
    assert_eq!(from_whole(u32::MAX), None);
    let mut n = 1u32;
    while n < 0x100_0000 {
        for m in [n - 1, n, n + 1, n + n / 3] {
            if m < 0x100_0000 {
                assert_eq!(from_whole(m), Some((m as f32).to_bits()), "n = {}", m);
                assert_eq!(nearest_whole(from_whole(m).unwrap()), Some(m as i64));
            }
        }
        n *= 2;
    }
}

#[test]
fn less_orders_as_the_numbers_do() {
    let mut v = samples();
    let negatives: Vec<f32> = v.iter().map(|x| -x).collect();
    v.extend(negatives);
    for &a in &v {
        for &b in &v {
            assert_eq!(less(a.to_bits(), b.to_bits()), Some(a < b), "a = {}, b = {}", a, b);
        }
    }
    assert_eq!(less(0.0_f32.to_bits(), (-0.0_f32).to_bits()), Some(false));
    assert_eq!(less((-0.0_f32).to_bits(), 0.0_f32.to_bits()), Some(false));
    assert_eq!(less((-1.0_f32).to_bits(), (-0.5_f32).to_bits()), Some(true));
    assert_eq!(less((-0.5_f32).to_bits(), (-1.0_f32).to_bits()), Some(false));
    assert_eq!(less((-1.0e-45_f32).to_bits(), 0.0_f32.to_bits()), Some(true));
    for bad in [f32::NAN, f32::INFINITY, f32::NEG_INFINITY] {
        assert_eq!(less(bad.to_bits(), 1.0_f32.to_bits()), None);
        assert_eq!(less(1.0_f32.to_bits(), bad.to_bits()), None);
    }
}

#[test]
fn clamp_holds_a_number_between_two_bounds() {
    let c = |x: f32, low: f32, high: f32| {
        clamp(x.to_bits(), low.to_bits(), high.to_bits()).map(f32::from_bits)
    };
    assert_eq!(c(0.5, 0.0, 1.0), Some(0.5));
    assert_eq!(c(-0.5, 0.0, 1.0), Some(0.0));
    assert_eq!(c(1.5, 0.0, 1.0), Some(1.0));
    assert_eq!(c(0.2, 0.3, f32::MAX), Some(0.3));
    assert_eq!(c(-7.0, 0.3, f32::MAX), Some(0.3));
    assert_eq!(c(7.0, 0.3, f32::MAX), Some(7.0));
    assert_eq!(c(1.0, -0.7853982, 0.7853982), Some(0.7853982));
    assert_eq!(c(-1.0, -0.7853982, 0.7853982), Some(-0.7853982));
    assert_eq!(c(-0.1, -0.7853982, 0.7853982), Some(-0.1));
    assert_eq!(c(3.0, 3.0, 3.0), Some(3.0));
    assert_eq!(c(0.5, 1.0, 0.0), None);
    assert_eq!(c(f32::NAN, 0.0, 1.0), None);
    assert_eq!(c(f32::INFINITY, 0.0, 1.0), None);
    assert_eq!(c(0.5, f32::NEG_INFINITY, 1.0), None);
    assert_eq!(c(0.5, 0.0, f32::NAN), None);
    for x in samples() {
        for s in [x, -x] {
            assert_eq!(c(s, -2.0, 100.0), Some(s.max(-2.0).min(100.0)), "x = {}", s);
        }
    }
}
