use robot_scene::frame::Origin;
use robot_scene::scalar::Scalar;
use robot_scene::scalar::Vec3;
use robot_scene::visual::check_poses;
use robot_scene::visual::resolve_visual;
use robot_scene::visual::resolve_visuals;
use robot_scene::visual::CompiledVisual;
use robot_scene::visual::MaterialDescriptor;
use robot_scene::visual::Rgba;
use robot_scene::visual::Surface;
use robot_scene::visual::VisualGeometry;
use robot_scene::visual::VisualPrimitive;

fn s(x: f32) -> Scalar {
    Scalar::from_bits(x.to_bits())
}

fn v(x: f32, y: f32, z: f32) -> Vec3 {
    Vec3::new(s(x), s(y), s(z))
}

fn plain(x: f32) -> VisualPrimitive {
    VisualPrimitive {
        geometry: VisualGeometry::Primitive,
        material: None,
        origin: Origin { xyz: v(x, 0.0, 0.0), rpy: v(0.0, 0.0, 0.0) },
    }
}

#[test]
fn visual_without_mesh_or_material_is_white_and_unscaled() {
    let out = resolve_visual(&plain(0.5));
    let frame = robot_scene::frame::compose(&Origin { xyz: v(0.5, 0.0, 0.0), rpy: v(0.0, 0.0, 0.0) });
    assert_eq!(
        out,
        CompiledVisual {
            mesh: None,
            scale: v(1.0, 1.0, 1.0),
            surface: Surface::Color(Rgba { r: s(1.0), g: s(1.0), b: s(1.0), a: s(1.0) }),
            frame,
        }
    );
}

#[test]
fn visual_texture_comes_before_colour() {
    let mut visual = plain(0.0);
    let red = Rgba { r: s(1.0), g: s(0.0), b: s(0.0), a: s(0.5) };
    visual.material = Some(MaterialDescriptor { texture: Some("skin.jpg".to_string()), color: Some(red) });
    assert_eq!(resolve_visual(&visual).surface, Surface::Texture("skin.jpg".to_string()));
    visual.material = Some(MaterialDescriptor { texture: None, color: Some(red) });
    assert_eq!(resolve_visual(&visual).surface, Surface::Color(red));
}

#[test]
fn visual_mesh_keeps_its_file_and_scale() {
    let mut visual = plain(0.0);
    visual.geometry = VisualGeometry::Mesh { filename: "arm.stl".to_string(), scale: Some(v(2.0, 3.0, 4.0)) };
    let out = resolve_visual(&visual);
    assert_eq!(out.mesh, Some("arm.stl".to_string()));
    assert_eq!(out.scale, v(2.0, 3.0, 4.0));
}

#[test]
fn visuals_compile_one_for_one() {
    let visuals = vec![plain(1.0), plain(2.0), plain(3.0)];
    let out = resolve_visuals(&visuals);
    assert_eq!(out.len(), 3);
    for i in 0..3 {
        assert_eq!(out[i], resolve_visual(&visuals[i]));
    }
    assert_eq!(out[2].frame.translation, v(3.0, 0.0, 0.0));
    assert!(resolve_visuals(&vec![]).is_empty());
}

#[test]
fn visual_poses_are_checked() {
    let mut bad = plain(0.0);
    bad.origin.rpy = v(0.0, f32::NAN, 0.0);
    assert!(check_poses(&vec![plain(1.0), plain(2.0)]));
    assert!(!check_poses(&vec![plain(1.0), bad]));
    assert!(check_poses(&vec![]));
}
