use raytracing_lib::scalar::Scalar;
use raytracing_lib::vec3::{Ray, Vec3};

fn s(x: f32) -> Scalar {
    Scalar::from_bits(x.to_bits())
}

fn f(x: Scalar) -> f32 {
    f32::from_bits(x.to_bits())
}

fn samples() -> Vec<f32> {
    vec![
        0.0,
        -0.0,
        1.0,
        -1.0,
        0.001,
        0.5,
        -0.5,
        0.999,
        1.0e-40,
        -1.0e-40,
        f32::MIN_POSITIVE,
        f32::MAX,
        f32::MIN,
        f32::INFINITY,
        f32::NEG_INFINITY,
        f32::NAN,
        -f32::NAN,
        3.25,
        -1000.0,
        1000.0,
    ]
}

#[test]
fn comparisons_agree_with_the_hardware() {
    for &a in samples().iter() {
        for &b in samples().iter() {
            assert_eq!(s(a).lt(s(b)), a < b, "{} < {}", a, b);
            assert_eq!(s(a).le(s(b)), a <= b, "{} <= {}", a, b);
            assert_eq!(s(a).gt(s(b)), a > b, "{} > {}", a, b);
        }
    }
}

#[test]
fn nan_is_recognised() {
    for &a in samples().iter() {
        assert_eq!(s(a).is_nan(), a.is_nan());
    }
}

#[test]
fn min_and_max_agree_with_the_hardware_on_distinct_numbers() {
    for &a in samples().iter() {
        for &b in samples().iter() {
            if a.is_nan() && b.is_nan() {
                assert!(s(a).min(s(b)).is_nan());
                assert!(s(a).max(s(b)).is_nan());
            } else if a == b {
                // of equal values the first operand is kept
                assert_eq!(s(a).min(s(b)).to_bits(), a.to_bits());
                assert_eq!(s(a).max(s(b)).to_bits(), a.to_bits());
            } else {
                assert_eq!(s(a).min(s(b)).to_bits(), a.min(b).to_bits());
                assert_eq!(s(a).max(s(b)).to_bits(), a.max(b).to_bits());
            }
        }
    }
}

#[test]
fn neg_flips_the_sign() {
    for &a in samples().iter() {
        assert_eq!(s(a).neg().to_bits(), (-a).to_bits());
        assert_eq!(s(a).neg().neg().to_bits(), a.to_bits());
    }
}

#[test]
fn constants_have_their_values() {
    assert_eq!(f(Scalar::zero()), 0.0);
    assert_eq!(f(Scalar::one()), 1.0);
    assert_eq!(f(Scalar::infinity()), f32::INFINITY);
    assert_eq!(raytracing_lib::scalar::MILLI_BITS, 0.001f32.to_bits());
    assert_eq!(raytracing_lib::scalar::ONE_BITS, 1.0f32.to_bits());
    assert_eq!(raytracing_lib::scalar::INFINITY_BITS, f32::INFINITY.to_bits());
}

#[test]
fn vector_components_and_order() {
    let a = Vec3::new(s(1.0), s(2.0), s(3.0));
    let b = Vec3::new(s(1.0), s(5.0), s(-3.0));
    assert_eq!(f(a.component(0)), 1.0);
    assert_eq!(f(a.component(1)), 2.0);
    assert_eq!(f(a.component(2)), 3.0);
    assert!(!a.all_le(&b));
    assert!(a.min(&b).all_le(&a));
    assert!(a.min(&b).all_le(&b));
    assert!(a.all_le(&a.max(&b)));
    assert_eq!(a.min(&b), Vec3::new(s(1.0), s(2.0), s(-3.0)));
    assert_eq!(a.max(&b), Vec3::new(s(1.0), s(5.0), s(3.0)));
    assert_eq!(a.neg(), Vec3::new(s(-1.0), s(-2.0), s(-3.0)));
    assert_eq!(Vec3::zeros(), Vec3::new(s(0.0), s(0.0), s(0.0)));
}

#[test]
fn a_ray_keeps_origin_and_direction() {
    let o = Vec3::new(s(1.0), s(2.0), s(3.0));
    let d = Vec3::new(s(0.0), s(0.0), s(-1.0));
    let r = Ray::new(o, d);
    assert_eq!(r.origin, o);
    assert_eq!(r.direction, d);
}
