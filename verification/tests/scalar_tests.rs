use raytracer::scalar::{Scalar, HIDDEN_BIT, INFINITY_BITS, ONE_BITS, SIGN_BIT};

fn s(x: f64) -> Scalar {
    Scalar::from_bits(x.to_bits())
}

fn samples() -> Vec<f64> {
    vec![
        0.0,
        -0.0,
        1.0,
        -1.0,
        0.5,
        -0.5,
        0.001,
        1e-8,
        -1e-8,
        1e-9,
        f64::EPSILON,
        f64::MIN_POSITIVE,
        -f64::MIN_POSITIVE,
        5e-324,
        -5e-324,
        1.0000000000000002,
        0.9999999999999999,
        2.0,
        255.0,
        255.999,
        256.0,
        1e10,
        -1e10,
        f64::MAX,
        f64::MIN,
        f64::INFINITY,
        f64::NEG_INFINITY,
        f64::NAN,
        -f64::NAN,
    ]
}

#[test]
fn patterns_of_the_constants() {
    assert_eq!(ONE_BITS, 1.0f64.to_bits());
    assert_eq!(INFINITY_BITS, f64::INFINITY.to_bits());
    assert_eq!(SIGN_BIT, (-0.0f64).to_bits());
    assert_eq!(HIDDEN_BIT, 1u64 << 52);
    assert_eq!(Scalar::zero().bits, 0.0f64.to_bits());
    assert_eq!(Scalar::one().bits, 1.0f64.to_bits());
    assert_eq!(Scalar::infinity().bits, f64::INFINITY.to_bits());
    assert_eq!(Scalar::from_bits(42).bits, 42);
}

#[test]
fn lt_is_the_order_of_the_numbers() {
    for a in samples() {
        for b in samples() {
            assert_eq!(s(a).lt(s(b)), a < b, "{a} < {b}");
        }
    }
}

#[test]
fn le_is_the_order_of_the_numbers() {
    for a in samples() {
        for b in samples() {
            assert_eq!(s(a).le(s(b)), a <= b, "{a} <= {b}");
        }
    }
}

#[test]
fn gt_is_the_order_of_the_numbers() {
    for a in samples() {
        for b in samples() {
            assert_eq!(s(a).gt(s(b)), a > b, "{a} > {b}");
        }
    }
}

#[test]
fn the_two_zeros_are_equal() {
    assert!(!s(-0.0).lt(s(0.0)));
    assert!(!s(0.0).lt(s(-0.0)));
    assert!(s(-0.0).le(s(0.0)));
    assert!(s(0.0).le(s(-0.0)));
}

#[test]
fn not_a_number_is_beside_the_order() {
    let nan = s(f64::NAN);
    assert!(nan.is_not_a_number());
    assert!(!nan.lt(nan));
    assert!(!nan.le(nan));
    assert!(!nan.lt(s(f64::INFINITY)));
    assert!(!s(f64::NEG_INFINITY).lt(nan));
    assert!(!s(f64::INFINITY).is_not_a_number());
    assert!(!s(f64::NEG_INFINITY).is_not_a_number());
    assert!(!s(0.0).is_not_a_number());
}

#[test]
fn neg_flips_the_sign() {
    for a in samples() {
        assert_eq!(s(a).neg().bits, (-a).to_bits(), "-{a}");
    }
    assert_eq!(s(1.5).neg().bits, (-1.5f64).to_bits());
    assert_eq!(s(-1.5).neg().bits, 1.5f64.to_bits());
}

#[test]
fn abs_drops_the_sign() {
    for a in samples() {
        assert_eq!(s(a).abs().bits, a.abs().to_bits(), "|{a}|");
    }
}

#[test]
fn to_byte_cuts_toward_zero() {
    assert_eq!(s(0.0).to_byte(), 0);
    assert_eq!(s(0.999).to_byte(), 0);
    assert_eq!(s(1.0).to_byte(), 1);
    assert_eq!(s(1.999).to_byte(), 1);
    assert_eq!(s(2.0).to_byte(), 2);
    assert_eq!(s(127.9995).to_byte(), 127);
    assert_eq!(s(128.0).to_byte(), 128);
    assert_eq!(s(254.99999).to_byte(), 254);
    assert_eq!(s(255.0).to_byte(), 255);
    assert_eq!(s(255.999).to_byte(), 255);
}

#[test]
fn to_byte_stays_between_0_and_255() {
    assert_eq!(s(256.0).to_byte(), 255);
    assert_eq!(s(1e300).to_byte(), 255);
    assert_eq!(s(f64::INFINITY).to_byte(), 255);
    assert_eq!(s(-0.0).to_byte(), 0);
    assert_eq!(s(-0.5).to_byte(), 0);
    assert_eq!(s(-3.0).to_byte(), 0);
    assert_eq!(s(f64::NEG_INFINITY).to_byte(), 0);
    assert_eq!(s(f64::NAN).to_byte(), 0);
    assert_eq!(s(5e-324).to_byte(), 0);
}

#[test]
fn to_byte_is_the_cast() {
    for a in samples() {
        assert_eq!(s(a).to_byte(), a as u8, "{a}");
    }
    let mut x = -2.0f64;
    while x < 260.0 {
        assert_eq!(s(x).to_byte(), x as u8, "{x}");
        x += 0.0371;
    }
    for k in 0..=300u32 {
        let whole = k as f64;
        assert_eq!(s(whole).to_byte(), whole as u8, "{whole}");
        let below = f64::from_bits(whole.to_bits().wrapping_sub(1));
        assert_eq!(s(below).to_byte(), below as u8, "{below}");
    }
}

#[test]
fn to_byte_of_a_scaled_channel() {
    assert_eq!(s(0.5 * 255.999).to_byte(), 127);
    assert_eq!(s(0.7 * 255.999).to_byte(), 179);
    assert_eq!(s(1.0 * 255.999).to_byte(), 255);
    assert_eq!(s(0.0 * 255.999).to_byte(), 0);
}

#[test]
fn round_to_i32_takes_the_nearest() {
    assert_eq!(s(0.0).round_to_i32(), 0);
    assert_eq!(s(0.49999).round_to_i32(), 0);
    assert_eq!(s(0.5).round_to_i32(), 1);
    assert_eq!(s(1.4999).round_to_i32(), 1);
    assert_eq!(s(1.5).round_to_i32(), 2);
    assert_eq!(s(2.5).round_to_i32(), 3);
    assert_eq!(s(225.0).round_to_i32(), 225);
    assert_eq!(s(224.5).round_to_i32(), 225);
    assert_eq!(s(-0.5).round_to_i32(), -1);
    assert_eq!(s(-0.49999).round_to_i32(), 0);
    assert_eq!(s(-2.5).round_to_i32(), -3);
    assert_eq!(s(-7.2).round_to_i32(), -7);
}

#[test]
fn round_to_i32_stays_in_range() {
    assert_eq!(s(2147483647.0).round_to_i32(), i32::MAX);
    assert_eq!(s(2147483646.5).round_to_i32(), i32::MAX);
    assert_eq!(s(2147483646.4).round_to_i32(), 2147483646);
    assert_eq!(s(2147483647.5).round_to_i32(), i32::MAX);
    assert_eq!(s(2147483648.0).round_to_i32(), i32::MAX);
    assert_eq!(s(1e300).round_to_i32(), i32::MAX);
    assert_eq!(s(f64::INFINITY).round_to_i32(), i32::MAX);
    assert_eq!(s(-2147483648.0).round_to_i32(), i32::MIN);
    assert_eq!(s(-2147483647.5).round_to_i32(), i32::MIN);
    assert_eq!(s(-2147483648.5).round_to_i32(), i32::MIN);
    assert_eq!(s(-1e300).round_to_i32(), i32::MIN);
    assert_eq!(s(f64::NEG_INFINITY).round_to_i32(), i32::MIN);
    assert_eq!(s(f64::NAN).round_to_i32(), 0);
    assert_eq!(s(5e-324).round_to_i32(), 0);
}

#[test]
fn round_to_i32_is_round_and_cast() {
    for a in samples() {
        assert_eq!(s(a).round_to_i32(), a.round() as i32, "{a}");
    }
    let mut x = -1000.0f64;
    while x < 1000.0 {
        assert_eq!(s(x).round_to_i32(), x.round() as i32, "{x}");
        x += 0.0625;
    }
    let mut y = 1.0f64;
    while y < 1e11 {
        for z in [y, -y, y + 0.5, -y - 0.5, y - 0.5, y + 0.49, y * 1.000001] {
            assert_eq!(s(z).round_to_i32(), z.round() as i32, "{z}");
        }
        y *= 1.37;
    }
    for k in [2147483600i64, 2147483647, 2147483648, 4294967296] {
        for half in [0.0, 0.5, -0.5] {
            let z = k as f64 + half;
            assert_eq!(s(z).round_to_i32(), z.round() as i32, "{z}");
            assert_eq!(s(-z).round_to_i32(), (-z).round() as i32, "-{z}");
        }
    }
}
