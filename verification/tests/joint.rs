use robot_scene::error::Error;
use robot_scene::frame::ResolvedFrame;
use robot_scene::frame::Rotation;
use robot_scene::joint::ConstraintSpec;
use robot_scene::joint::Freedom;
use robot_scene::joint::JointKind;
use robot_scene::scalar::Scalar;
use robot_scene::scalar::Vec3;

fn s(x: f32) -> Scalar {
    Scalar::from_bits(x.to_bits())
}

fn v(x: f32, y: f32, z: f32) -> Vec3 {
    Vec3::new(s(x), s(y), s(z))
}

fn anchor() -> ResolvedFrame {
    ResolvedFrame {
        translation: v(0.1, 0.2, 0.3),
        rotation: Rotation { yaw: s(0.5), pitch: s(0.25), roll: s(0.125) },
    }
}

fn name() -> String {
    "elbow".to_string()
}

#[test]
fn map_revolute_about_z_without_anchor_translation() {
    let frame = ResolvedFrame {
        translation: v(0.0, 0.0, 0.0),
        rotation: Rotation { yaw: s(0.0), pitch: s(0.0), roll: s(0.0) },
    };
    let spec =
        robot_scene::joint::map(&name(), JointKind::Revolute, Some(v(0.0, 0.0, 1.0)), &frame).unwrap();
    assert_eq!(spec.freedom, Freedom::Hinge);
    assert_eq!(spec.freedom.rotational_dof(), 1);
    assert_eq!(spec.freedom.translational_dof(), 0);
    assert!(!spec.freedom.is_unbounded());
    assert_eq!(spec.axis, Some(v(0.0, 0.0, 1.0)));
    assert_eq!(spec.anchor, v(0.0, 0.0, 0.0));
    assert_eq!(spec.basis, None);
}

#[test]
fn map_fixed_locks_position_and_orientation() {
    let spec = robot_scene::joint::map(&name(), JointKind::Fixed, None, &anchor()).unwrap();
    assert_eq!(
        spec,
        ConstraintSpec {
            freedom: Freedom::Locked,
            anchor: v(0.1, 0.2, 0.3),
            basis: Some(anchor().rotation),
            axis: None,
        }
    );
    assert_eq!(spec.freedom.rotational_dof(), 0);
    assert_eq!(spec.freedom.translational_dof(), 0);
}

#[test]
fn map_fixed_ignores_an_axis() {
    let spec =
        robot_scene::joint::map(&name(), JointKind::Fixed, Some(v(1.0, 0.0, 0.0)), &anchor()).unwrap();
    assert_eq!(spec.axis, None);
}

#[test]
fn map_continuous_is_an_unbounded_hinge() {
    let spec =
        robot_scene::joint::map(&name(), JointKind::Continuous, Some(v(0.0, 1.0, 0.0)), &anchor())
            .unwrap();
    assert_eq!(spec.freedom, Freedom::UnboundedHinge);
    assert_eq!(spec.freedom.rotational_dof(), 1);
    assert_eq!(spec.freedom.translational_dof(), 0);
    assert!(spec.freedom.is_unbounded());
    assert_eq!(spec.axis, Some(v(0.0, 1.0, 0.0)));
    assert_eq!(spec.anchor, v(0.1, 0.2, 0.3));
}

#[test]
fn map_prismatic_slides_along_its_axis() {
    let spec =
        robot_scene::joint::map(&name(), JointKind::Prismatic, Some(v(1.0, 0.0, 0.0)), &anchor())
            .unwrap();
    assert_eq!(spec.freedom, Freedom::Slider);
    assert_eq!(spec.freedom.rotational_dof(), 0);
    assert_eq!(spec.freedom.translational_dof(), 1);
    assert_eq!(spec.axis, Some(v(1.0, 0.0, 0.0)));
    assert_eq!(spec.basis, None);
}

#[test]
fn map_spherical_leaves_three_rotations() {
    let spec = robot_scene::joint::map(&name(), JointKind::Spherical, None, &anchor()).unwrap();
    assert_eq!(spec.freedom, Freedom::Ball);
    assert_eq!(spec.freedom.rotational_dof(), 3);
    assert_eq!(spec.freedom.translational_dof(), 0);
    assert_eq!(spec.axis, None);
    assert_eq!(spec.basis, None);
    assert_eq!(spec.anchor, v(0.1, 0.2, 0.3));
}

#[test]
fn map_refuses_planar_and_floating() {
    for kind in [JointKind::Planar, JointKind::Floating] {
        assert_eq!(
            robot_scene::joint::map(&name(), kind, Some(v(0.0, 0.0, 1.0)), &anchor()),
            Err(Error::UnsupportedJointKind("elbow".to_string()))
        );
        assert_eq!(
            robot_scene::joint::map(&name(), kind, None, &anchor()),
            Err(Error::UnsupportedJointKind("elbow".to_string()))
        );
        assert!(!kind.is_supported());
    }
}

#[test]
fn map_refuses_a_missing_axis() {
    for kind in [JointKind::Revolute, JointKind::Continuous, JointKind::Prismatic] {
        assert_eq!(
            robot_scene::joint::map(&name(), kind, None, &anchor()),
            Err(Error::MissingAxis("elbow".to_string()))
        );
        assert!(kind.requires_axis());
        assert!(kind.is_supported());
    }
    assert!(!JointKind::Fixed.requires_axis());
    assert!(!JointKind::Spherical.requires_axis());
}
