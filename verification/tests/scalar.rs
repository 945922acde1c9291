use robot_scene::scalar::Scalar;
use robot_scene::scalar::Vec3;

fn s(x: f32) -> Scalar {
    Scalar::from_bits(x.to_bits())
}

fn samples() -> Vec<f32> {
    vec![
        0.0,
        -0.0,
        1.0,
        -1.0,
        0.5,
        -0.5,
        1e-5,
        -1e-5,
        3.25,
        -7.75,
        f32::MIN_POSITIVE,
        -f32::MIN_POSITIVE,
        1e-45,
        -1e-45,
        f32::MAX,
        f32::MIN,
        f32::INFINITY,
        f32::NEG_INFINITY,
        f32::NAN,
        -f32::NAN,
    ]
}

#[test]
fn scalar_keeps_its_bits() {
    assert_eq!(Scalar::from_bits(0x3f80_0000).to_bits(), 0x3f80_0000);
    assert_eq!(Scalar::one().to_bits(), 1.0f32.to_bits());
    assert_eq!(Vec3::ones(), Vec3::new(s(1.0), s(1.0), s(1.0)));
    assert_eq!(Vec3::from_bits(1, 2, 3).y.to_bits(), 2);
}

#[test]
fn scalar_classes_agree_with_the_numbers() {
    for x in samples() {
        assert_eq!(s(x).is_finite(), x.is_finite(), "{}", x);
        assert_eq!(s(x).is_zero(), x == 0.0, "{}", x);
        assert_eq!(s(x).is_negative(), x < 0.0, "{}", x);
        assert_eq!(s(x).is_positive(), x > 0.0, "{}", x);
    }
}

#[test]
fn scalar_negation_agrees_with_the_numbers() {
    for x in samples() {
        assert_eq!(s(x).negated().to_bits(), (-x).to_bits(), "{}", x);
        assert_eq!(s(x).negated().negated(), s(x));
    }
    assert_eq!(Vec3::new(s(1.0), s(-2.0), s(0.0)).negated(), Vec3::new(s(-1.0), s(2.0), s(-0.0)));
}

#[test]
fn vector_is_finite_if_each_component_is() {
    assert!(Vec3::new(s(1.0), s(2.0), s(3.0)).is_finite());
    assert!(!Vec3::new(s(f32::NAN), s(2.0), s(3.0)).is_finite());
    assert!(!Vec3::new(s(1.0), s(f32::INFINITY), s(3.0)).is_finite());
    assert!(!Vec3::new(s(1.0), s(2.0), s(f32::NEG_INFINITY)).is_finite());
}
