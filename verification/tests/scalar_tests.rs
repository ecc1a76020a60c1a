use raytracer::ray::SHADOW_GUARD_BITS;
use raytracer::scalar::{Scalar, INFINITY_BITS, ONE_BITS, SIGN_BIT};
use raytracer::utility::{clamp, fmax, fmin, get_pixel_color, pixel_byte, BRIGHTEST_BITS};
use raytracer::vec3::Vec3;

fn s(x: f64) -> Scalar {
    Scalar::from_bits(x.to_bits())
}

fn f(x: Scalar) -> f64 {
    f64::from_bits(x.to_bits())
}

fn samples() -> Vec<f64> {
    vec![
        0.0,
        -0.0,
        1.0,
        -1.0,
        0.5,
        -0.5,
        0.001,
        0.999,
        1.0e-310,
        -1.0e-310,
        f64::MIN_POSITIVE,
        f64::MAX,
        f64::MIN,
        f64::INFINITY,
        f64::NEG_INFINITY,
        f64::NAN,
        -f64::NAN,
        3.25,
        -3.25,
        255.75,
        1.0e300,
        -1.0e300,
    ]
}

#[test]
fn constants_are_the_encodings_they_name() {
    assert_eq!(Scalar::zero().to_bits(), 0.0f64.to_bits());
    assert_eq!(Scalar::one().to_bits(), 1.0f64.to_bits());
    assert_eq!(ONE_BITS, 1.0f64.to_bits());
    assert_eq!(Scalar::infinity().to_bits(), f64::INFINITY.to_bits());
    assert_eq!(INFINITY_BITS, f64::INFINITY.to_bits());
    assert_eq!(SIGN_BIT, (-0.0f64).to_bits());
    assert_eq!(SHADOW_GUARD_BITS, 0.001f64.to_bits());
    assert_eq!(BRIGHTEST_BITS, 0.999f64.to_bits());
}

#[test]
fn comparisons_follow_the_numbers() {
    for a in samples() {
        for b in samples() {
            assert_eq!(s(a).lt(s(b)), a < b, "{} < {}", a, b);
            assert_eq!(s(a).le(s(b)), a <= b, "{} <= {}", a, b);
            assert_eq!(s(a).same(s(b)), a == b, "{} == {}", a, b);
        }
    }
}

#[test]
fn nan_is_recognised() {
    for a in samples() {
        assert_eq!(s(a).is_nan(), a.is_nan());
    }
}

#[test]
fn order_key_grows_with_the_number() {
    for a in samples() {
        for b in samples() {
            if !a.is_nan() && !b.is_nan() {
                assert_eq!(s(a).ord_key() < s(b).ord_key(), a < b);
                assert_eq!(s(a).ord_key() == s(b).ord_key(), a == b);
            }
        }
    }
    assert_eq!(s(0.0).ord_key(), 0);
    assert_eq!(s(-0.0).ord_key(), 0);
    assert_eq!(s(1.0).ord_key(), 0x3FF0_0000_0000_0000);
    assert_eq!(s(-1.0).ord_key(), -0x3FF0_0000_0000_0000);
}

#[test]
fn negation_flips_the_sign_only() {
    for a in samples() {
        assert_eq!(s(a).neg().to_bits(), (-a).to_bits());
        assert_eq!(s(a).neg().neg(), s(a));
    }
}

#[test]
fn inside_is_strict_on_both_ends() {
    assert!(s(0.5).inside(s(0.0), s(1.0)));
    assert!(!s(0.0).inside(s(0.0), s(1.0)));
    assert!(!s(1.0).inside(s(0.0), s(1.0)));
    assert!(!s(f64::NAN).inside(s(0.0), s(1.0)));
    assert!(!s(0.5).inside(s(f64::NAN), s(1.0)));
    assert!(s(1.0e300).inside(s(0.001), s(f64::INFINITY)));
}

#[test]
fn fmin_and_fmax_pick_as_the_comparison_says() {
    for a in samples() {
        for b in samples() {
            let lo = if a <= b { a } else { b };
            let hi = if a <= b { b } else { a };
            assert_eq!(fmin(s(a), s(b)).to_bits(), lo.to_bits());
            assert_eq!(fmax(s(a), s(b)).to_bits(), hi.to_bits());
        }
    }
    assert_eq!(f(fmin(s(2.0), s(3.0))), 2.0);
    assert_eq!(f(fmax(s(2.0), s(3.0))), 3.0);
    assert_eq!(f(fmin(s(f64::NAN), s(3.0))), 3.0);
    assert!(f(fmin(s(3.0), s(f64::NAN))).is_nan());
    assert!(f(fmax(s(f64::NAN), s(3.0))).is_nan());
    assert_eq!(f(fmax(s(3.0), s(f64::NAN))), 3.0);
}

#[test]
fn clamp_keeps_what_is_in_range() {
    assert_eq!(f(clamp(s(0.5), s(0.0), s(0.999))), 0.5);
    assert_eq!(f(clamp(s(-2.0), s(0.0), s(0.999))), 0.0);
    assert_eq!(f(clamp(s(7.0), s(0.0), s(0.999))), 0.999);
    assert_eq!(f(clamp(s(0.0), s(0.0), s(0.999))), 0.0);
    assert_eq!(f(clamp(s(0.999), s(0.0), s(0.999))), 0.999);
    assert!(f(clamp(s(f64::NAN), s(0.0), s(0.999))).is_nan());
}

fn byte_by_arithmetic(x: f64) -> u8 {
    let c = if x < 0.0 {
        0.0
    } else if x > 0.999 {
        0.999
    } else {
        x
    };
    (c * 256.0).floor() as u8
}

#[test]
fn pixel_byte_is_256_times_the_clamped_channel_rounded_down() {
    assert_eq!(pixel_byte(s(0.0)), 0);
    assert_eq!(pixel_byte(s(0.5)), 128);
    assert_eq!(pixel_byte(s(0.25)), 64);
    assert_eq!(pixel_byte(s(1.0)), 255);
    assert_eq!(pixel_byte(s(0.999)), 255);
    assert_eq!(pixel_byte(s(1.0 / 256.0)), 1);
    assert_eq!(pixel_byte(s(0.0039)), 0);
    assert_eq!(pixel_byte(s(-3.0)), 0);
    assert_eq!(pixel_byte(s(f64::NAN)), 0);
    assert_eq!(pixel_byte(s(-0.0)), 0);
    for a in samples() {
        assert_eq!(pixel_byte(s(a)), byte_by_arithmetic(a), "{}", a);
    }
    let mut x = 0.0f64;
    while x < 1.1 {
        assert_eq!(pixel_byte(s(x)), byte_by_arithmetic(x), "{}", x);
        x += 0.000_37;
    }
    for k in 0..=256u32 {
        let edge = k as f64 / 256.0;
        assert_eq!(pixel_byte(s(edge)), byte_by_arithmetic(edge));
        let under = f64::from_bits(edge.to_bits().wrapping_sub(1));
        if k > 0 {
            assert_eq!(pixel_byte(s(under)), byte_by_arithmetic(under));
        }
    }
}

#[test]
fn pixel_color_takes_each_channel() {
    let color = Vec3::new(s(0.5), s(2.0), s(-1.0));
    assert_eq!(get_pixel_color(color), [128, 255, 0]);
}

#[test]
fn vec3_components_and_negation() {
    let mut v = Vec3::new(s(1.0), s(-2.0), s(3.0));
    assert_eq!(f(v.index(0)), 1.0);
    assert_eq!(f(v.index(1)), -2.0);
    assert_eq!(f(v.index(2)), 3.0);
    v.index_mut(1, s(5.0));
    assert_eq!(f(v.index(1)), 5.0);
    assert_eq!(f(v.index(0)), 1.0);
    let n = v.neg();
    assert_eq!((f(n.x), f(n.y), f(n.z)), (-1.0, -5.0, -3.0));
    assert_eq!(Vec3::ones(), Vec3::new(s(1.0), s(1.0), s(1.0)));
    assert_eq!(Vec3::zero(), Vec3::new(s(0.0), s(0.0), s(0.0)));
}
