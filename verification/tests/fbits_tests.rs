use inpaint::fbits::{
    float_abs, float_is_zero, float_le, float_lt, float_min, float_neg, EPSILON_BITS, MAX_BITS,
    ONE_BITS, TWO_BITS, ZERO_BITS,
};
use inpaint::sqrt::{float_sqrt, isqrt64};

#[test]
fn constants_encode_the_documented_values() {
    assert_eq!(ZERO_BITS, 0.0f32.to_bits());
    assert_eq!(ONE_BITS, 1.0f32.to_bits());
    assert_eq!(TWO_BITS, 2.0f32.to_bits());
    assert_eq!(MAX_BITS, 1.0e6f32.to_bits());
    assert_eq!(EPSILON_BITS, f32::EPSILON.to_bits());
}

fn sample_values() -> Vec<f32> {
    vec![
        0.0,
        -0.0,
        1.0,
        -1.0,
        2.0,
        0.5,
        -0.5,
        1.0e6,
        -1.0e6,
        f32::INFINITY,
        f32::NEG_INFINITY,
        f32::MIN_POSITIVE,
        f32::from_bits(1),        // smallest subnormal
        f32::from_bits(0x7F7FFFFF), // largest finite
        3.1415927,
        -2.7182817,
        1.0e-40, // subnormal
    ]
}

#[test]
fn comparisons_match_hardware_float_order() {
    let vals = sample_values();
    for &a in &vals {
        for &b in &vals {
            assert_eq!(
                float_lt(a.to_bits(), b.to_bits()),
                a < b,
                "lt {a} {b}"
            );
            assert_eq!(
                float_le(a.to_bits(), b.to_bits()),
                a <= b,
                "le {a} {b}"
            );
        }
    }
    let nan = f32::NAN;
    assert!(!float_lt(nan.to_bits(), ONE_BITS));
    assert!(!float_lt(ONE_BITS, nan.to_bits()));
    assert!(!float_le(nan.to_bits(), nan.to_bits()));
}

#[test]
fn abs_neg_zero_match_hardware() {
    let vals = sample_values();
    for &a in &vals {
        assert_eq!(float_abs(a.to_bits()), a.abs().to_bits(), "abs {a}");
        assert_eq!(float_neg(a.to_bits()), (-a).to_bits(), "neg {a}");
        assert_eq!(float_is_zero(a.to_bits()), a == 0.0, "zero {a}");
    }
}

#[test]
fn min_matches_float_order() {
    assert_eq!(float_min(1.0f32.to_bits(), 2.0f32.to_bits()), 1.0f32.to_bits());
    assert_eq!(float_min(2.0f32.to_bits(), 1.0f32.to_bits()), 1.0f32.to_bits());
    assert_eq!(
        float_min((-3.0f32).to_bits(), 1.0f32.to_bits()),
        (-3.0f32).to_bits()
    );
}

#[test]
fn integer_square_root_brackets_the_input() {
    for a in [0u64, 1, 2, 3, 4, 15, 16, 17, 1 << 50, (1 << 52) - 1] {
        let r = isqrt64(a);
        assert!(r * r <= a);
        assert!((r + 1) * (r + 1) > a);
    }
}

#[test]
fn square_root_matches_hardware_on_positive_values() {
    let vals: Vec<f32> = vec![
        2.0,
        4.0,
        9.0,
        2.25,
        0.5,
        1.0,
        1.0e6,
        0.1,
        3.0,
        1.5,
        1.9999999,
        f32::MIN_POSITIVE,
        f32::from_bits(1),
        f32::from_bits(0x7F7FFFFF),
        1.0e-40,
        7.0e-2,
        123456.78,
    ];
    for &v in &vals {
        assert_eq!(
            float_sqrt(v.to_bits()),
            v.sqrt().to_bits(),
            "sqrt of {v}"
        );
    }
}

#[test]
fn square_root_special_cases() {
    assert_eq!(float_sqrt(0.0f32.to_bits()), 0.0f32.to_bits());
    assert_eq!(float_sqrt((-0.0f32).to_bits()), (-0.0f32).to_bits());
    assert_eq!(
        float_sqrt(f32::INFINITY.to_bits()),
        f32::INFINITY.to_bits()
    );
    assert!(f32::from_bits(float_sqrt((-1.0f32).to_bits())).is_nan());
    assert!(f32::from_bits(float_sqrt(f32::NAN.to_bits())).is_nan());
}
