use robot_scene::frame::compose;
use robot_scene::frame::try_compose;
use robot_scene::frame::Origin;
use robot_scene::frame::ResolvedFrame;
use robot_scene::frame::Rotation;
use robot_scene::scalar::Scalar;
use robot_scene::scalar::Vec3;

fn s(x: f32) -> Scalar {
    Scalar::from_bits(x.to_bits())
}

fn v(x: f32, y: f32, z: f32) -> Vec3 {
    Vec3::new(s(x), s(y), s(z))
}

#[test]
fn compose_translation_without_rotation() {
    let frame = compose(&Origin { xyz: v(1.0, 2.0, 3.0), rpy: v(0.0, 0.0, 0.0) });
    assert_eq!(f32::from_bits(frame.translation.x.to_bits()), 1.0);
    assert_eq!(f32::from_bits(frame.translation.y.to_bits()), 2.0);
    assert_eq!(f32::from_bits(frame.translation.z.to_bits()), 3.0);
    assert!(frame.rotation.is_identity());
    let q = nalgebra::UnitQuaternion::from_euler_angles(
        f32::from_bits(frame.rotation.roll.to_bits()),
        f32::from_bits(frame.rotation.pitch.to_bits()),
        f32::from_bits(frame.rotation.yaw.to_bits()),
    );
    assert_eq!(q, nalgebra::UnitQuaternion::identity());
}

#[test]
fn compose_keeps_the_order_of_the_angles() {
    let frame = compose(&Origin { xyz: v(0.0, 0.0, 0.0), rpy: v(0.1, 0.2, 0.3) });
    assert_eq!(
        frame,
        ResolvedFrame {
            translation: v(0.0, 0.0, 0.0),
            rotation: Rotation { yaw: s(0.3), pitch: s(0.2), roll: s(0.1) },
        }
    );
    assert!(!frame.rotation.is_identity());
}

#[test]
fn compose_yaw_turns_x_into_y() {
    let quarter = std::f32::consts::FRAC_PI_2;
    let frame = compose(&Origin { xyz: v(0.0, 0.0, 0.0), rpy: v(0.0, 0.0, quarter) });
    let q = nalgebra::UnitQuaternion::from_euler_angles(
        f32::from_bits(frame.rotation.roll.to_bits()),
        f32::from_bits(frame.rotation.pitch.to_bits()),
        f32::from_bits(frame.rotation.yaw.to_bits()),
    );
    let turned = q * nalgebra::Vector3::new(1.0f32, 0.0, 0.0);
    assert!((turned.x).abs() < 1e-6);
    assert!((turned.y - 1.0).abs() < 1e-6);
    assert!((turned.z).abs() < 1e-6);
}

#[test]
fn compose_negative_zero_angles_are_the_identity() {
    let frame = compose(&Origin { xyz: v(-1.5, 0.0, 2.5), rpy: v(-0.0, 0.0, -0.0) });
    assert!(frame.rotation.is_identity());
    assert_eq!(frame.translation, v(-1.5, 0.0, 2.5));
}

#[test]
fn try_compose_refuses_what_is_not_finite() {
    assert_eq!(try_compose(&Origin { xyz: v(f32::NAN, 0.0, 0.0), rpy: v(0.0, 0.0, 0.0) }), None);
    assert_eq!(try_compose(&Origin { xyz: v(0.0, 0.0, 0.0), rpy: v(0.0, f32::INFINITY, 0.0) }), None);
    assert_eq!(
        try_compose(&Origin { xyz: v(0.0, 0.0, 0.0), rpy: v(0.0, 0.0, f32::NEG_INFINITY) }),
        None
    );
    let origin = Origin { xyz: v(1.0, 2.0, 3.0), rpy: v(0.5, 0.0, 0.0) };
    assert_eq!(try_compose(&origin), Some(compose(&origin)));
}
