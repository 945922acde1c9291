use robot_scene::collider::check_poses;
use robot_scene::collider::compile;
use robot_scene::collider::CollisionPrimitive;
use robot_scene::collider::Geometry;
use robot_scene::collider::PrimitiveShape;
use robot_scene::collider::SubShape;
use robot_scene::error::Error;
use robot_scene::frame::Origin;
use robot_scene::frame::ResolvedFrame;
use robot_scene::frame::Rotation;
use robot_scene::scalar::Scalar;
use robot_scene::scalar::Vec3;

fn s(x: f32) -> Scalar {
    Scalar::from_bits(x.to_bits())
}

fn v(x: f32, y: f32, z: f32) -> Vec3 {
    Vec3::new(s(x), s(y), s(z))
}

fn at(x: f32, y: f32, z: f32) -> Origin {
    Origin { xyz: v(x, y, z), rpy: v(0.0, 0.0, 0.0) }
}

fn name() -> String {
    "torso".to_string()
}

#[test]
fn compile_nothing_gives_no_collider() {
    assert_eq!(compile(&name(), &vec![]), Ok(None));
}

#[test]
fn compile_one_primitive() {
    let primitive = CollisionPrimitive {
        geometry: Geometry::Sphere { radius: s(0.5) },
        origin: Origin { xyz: v(1.0, 2.0, 3.0), rpy: v(0.1, 0.2, 0.3) },
    };
    let shape = compile(&name(), &vec![primitive]).unwrap().unwrap();
    assert_eq!(shape.len(), 1);
    assert_eq!(
        shape.parts,
        vec![SubShape {
            local_frame: ResolvedFrame {
                translation: v(1.0, 2.0, 3.0),
                rotation: Rotation { yaw: s(0.3), pitch: s(0.2), roll: s(0.1) },
            },
            shape: PrimitiveShape::Sphere { radius: s(0.5) },
        }]
    );
}

#[test]
fn compile_keeps_count_and_order() {
    let primitives = vec![
        CollisionPrimitive {
            geometry: Geometry::Box { half_extents: v(0.1, 0.2, 0.3) },
            origin: at(0.0, 0.0, 0.0),
        },
        CollisionPrimitive {
            geometry: Geometry::Cylinder { radius: s(0.05), half_length: s(0.4) },
            origin: at(1.0, 0.0, 0.0),
        },
        CollisionPrimitive { geometry: Geometry::Sphere { radius: s(0.25) }, origin: at(0.0, 1.0, 0.0) },
        CollisionPrimitive {
            geometry: Geometry::Capsule { radius: s(0.02), half_length: s(0.1) },
            origin: at(0.0, 0.0, 1.0),
        },
    ];
    let shape = compile(&name(), &primitives).unwrap().unwrap();
    assert_eq!(shape.len(), 4);
    assert_eq!(shape.parts[0].shape, PrimitiveShape::Box { half_extents: v(0.1, 0.2, 0.3) });
    assert_eq!(shape.parts[1].shape, PrimitiveShape::Cylinder { radius: s(0.05), half_length: s(0.4) });
    assert_eq!(shape.parts[2].shape, PrimitiveShape::Sphere { radius: s(0.25) });
    assert_eq!(shape.parts[3].shape, PrimitiveShape::Capsule { radius: s(0.02), half_length: s(0.1) });
    assert_eq!(shape.parts[1].local_frame.translation, v(1.0, 0.0, 0.0));
    assert_eq!(shape.parts[3].local_frame.translation, v(0.0, 0.0, 1.0));
}

#[test]
fn compile_refuses_a_mesh() {
    let mesh = CollisionPrimitive { geometry: Geometry::Mesh, origin: at(0.0, 0.0, 0.0) };
    let ball = CollisionPrimitive { geometry: Geometry::Sphere { radius: s(1.0) }, origin: at(0.0, 0.0, 0.0) };
    assert_eq!(compile(&name(), &vec![mesh]), Err(Error::UnsupportedGeometry("torso".to_string())));
    assert_eq!(compile(&name(), &vec![ball, mesh]), Err(Error::UnsupportedGeometry("torso".to_string())));
    assert_eq!(
        compile(&name(), &vec![ball, ball, mesh, ball]),
        Err(Error::UnsupportedGeometry("torso".to_string()))
    );
}

#[test]
fn geometry_collides_as_itself() {
    assert_eq!(
        Geometry::Box { half_extents: v(1.0, 2.0, 3.0) }.collision_shape(),
        Some(PrimitiveShape::Box { half_extents: v(1.0, 2.0, 3.0) })
    );
    assert_eq!(Geometry::Mesh.collision_shape(), None);
}

#[test]
fn check_poses_finds_what_is_not_finite() {
    let good = CollisionPrimitive { geometry: Geometry::Sphere { radius: s(1.0) }, origin: at(0.0, 0.0, 0.0) };
    let bad = CollisionPrimitive { geometry: Geometry::Sphere { radius: s(1.0) }, origin: at(0.0, f32::NAN, 0.0) };
    assert!(check_poses(&vec![]));
    assert!(check_poses(&vec![good, good]));
    assert!(!check_poses(&vec![good, bad, good]));
    assert!(!check_poses(&vec![bad]));
}
