//! The visual primitives of a link. The library reads no asset: it passes
//! file names on and settles what each primitive is drawn with.

use vstd::prelude::*;
use crate::frame::compose;
use crate::frame::Origin;
use crate::frame::ResolvedFrame;
use crate::scalar::Scalar;
use crate::scalar::Vec3;

verus! {

/// A colour with its opacity.
#[derive(Clone, Copy, Debug, PartialEq, Eq, Structural)]
pub struct Rgba {
    pub r: Scalar,
    pub g: Scalar,
    pub b: Scalar,
    pub a: Scalar,
}

/// What a visual primitive is shaped like.
#[derive(Clone, Debug, PartialEq, Eq)]
pub enum VisualGeometry {
    /// A mesh file, with a scale for each axis where one is given.
    Mesh { filename: String, scale: Option<Vec3> },
    /// A box, cylinder, sphere or capsule; none of them is drawn from a
    /// file.
    Primitive,
}

/// What a description says of a primitive's surface.
#[derive(Clone, Debug, PartialEq, Eq)]
pub struct MaterialDescriptor {
    pub texture: Option<String>,
    pub color: Option<Rgba>,
}

/// One visual primitive of a link.
#[derive(Clone, Debug, PartialEq, Eq)]
pub struct VisualPrimitive {
    pub geometry: VisualGeometry,
    pub material: Option<MaterialDescriptor>,
    pub origin: Origin,
}

/// What a primitive's surface is drawn with.
#[derive(Clone, Debug, PartialEq, Eq)]
pub enum Surface {
    Texture(String),
    Color(Rgba),
}

/// A visual primitive ready to be attached to its link.
#[derive(Clone, Debug, PartialEq, Eq)]
pub struct CompiledVisual {
    /// The mesh file to load, for a mesh.
    pub mesh: Option<String>,
    pub scale: Vec3,
    pub surface: Surface,
    /// The pose in the link's local frame.
    pub frame: ResolvedFrame,
}

/// Opaque white.
pub open spec fn white() -> Rgba {
    Rgba {
        r: Scalar { bits: 0x3f80_0000 },
        g: Scalar { bits: 0x3f80_0000 },
        b: Scalar { bits: 0x3f80_0000 },
        a: Scalar { bits: 0x3f80_0000 },
    }
}

/// The scale (1, 1, 1).
pub open spec fn unit_scale() -> Vec3 {
    Vec3 {
        x: Scalar { bits: 0x3f80_0000 },
        y: Scalar { bits: 0x3f80_0000 },
        z: Scalar { bits: 0x3f80_0000 },
    }
}

impl VisualGeometry {
    /// The mesh file, for a mesh.
    pub open spec fn mesh(&self) -> Option<String> {
        match self {
            VisualGeometry::Mesh { filename, .. } => Some(*filename),
            VisualGeometry::Primitive => None,
        }
    }

    /// The scale: that of a mesh that gives one, else (1, 1, 1).
    pub open spec fn scale(&self) -> Vec3 {
        match self {
            VisualGeometry::Mesh { scale: Some(s), .. } => *s,
            _ => unit_scale(),
        }
    }
}

/// The surface that a material stands for: its texture where it has one,
/// else its colour where it has one, else white.
pub open spec fn surface_of(material: Option<MaterialDescriptor>) -> Surface {
    match material {
        Some(MaterialDescriptor { texture: Some(t), .. }) => Surface::Texture(t),
        Some(MaterialDescriptor { texture: None, color: Some(c) }) => Surface::Color(c),
        _ => Surface::Color(white()),
    }
}

impl VisualPrimitive {
    /// What this primitive compiles to.
    pub open spec fn compiled(&self) -> CompiledVisual {
        CompiledVisual {
            mesh: self.geometry.mesh(),
            scale: self.geometry.scale(),
            surface: surface_of(self.material),
            frame: self.origin.resolved(),
        }
    }
}

/// Whether each primitive's pose is finite.
pub open spec fn poses_finite(visuals: Seq<VisualPrimitive>) -> bool {
    forall|i: int| 0 <= i < visuals.len() ==> (#[trigger] visuals[i]).origin.finite()
}

/// The compiled form of each primitive, in order.
pub open spec fn compiled_all(visuals: Seq<VisualPrimitive>) -> Seq<CompiledVisual> {
    Seq::new(visuals.len(), |i: int| visuals[i].compiled())
}

/// Tests that each primitive's pose is finite.
pub fn check_poses(visuals: &Vec<VisualPrimitive>) -> (r: bool)
    ensures
        r == poses_finite(visuals@),
{
    let mut i: usize = 0;
    while i < visuals.len()
        invariant
            i <= visuals.len(),
            forall|j: int| 0 <= j < i ==> (#[trigger] visuals@[j]).origin.finite(),
        decreases visuals.len() - i,
    {
        if !visuals[i].origin.is_finite() {
            return false;
        }
        i += 1;
    }
    true
}

/// Settles what one visual primitive is drawn from and with, and resolves
/// its pose.
pub fn resolve_visual(visual: &VisualPrimitive) -> (r: CompiledVisual)
    requires
        visual.origin.finite(),
    ensures
        r == visual.compiled(),
{
    let (mesh, scale) = match &visual.geometry {
        VisualGeometry::Mesh { filename, scale } => {
            let s = match scale {
                Some(s) => *s,
                None => Vec3::ones(),
            };
            (Some(filename.clone()), s)
        },
        VisualGeometry::Primitive => (None, Vec3::ones()),
    };
    let surface = match &visual.material {
        Some(material) => match &material.texture {
            Some(t) => Surface::Texture(t.clone()),
            None => match material.color {
                Some(c) => Surface::Color(c),
                None => Surface::Color(
                    Rgba {
                        r: Scalar::one(),
                        g: Scalar::one(),
                        b: Scalar::one(),
                        a: Scalar::one(),
                    },
                ),
            },
        },
        None => Surface::Color(
            Rgba { r: Scalar::one(), g: Scalar::one(), b: Scalar::one(), a: Scalar::one() },
        ),
    };
    CompiledVisual { mesh, scale, surface, frame: compose(&visual.origin) }
}

/// Compiles the visual primitives of a link, one for one and in order.
pub fn resolve_visuals(visuals: &Vec<VisualPrimitive>) -> (r: Vec<CompiledVisual>)
    requires
        poses_finite(visuals@),
    ensures
        r@ == compiled_all(visuals@),
{
    let mut out: Vec<CompiledVisual> = Vec::new();
    let mut i: usize = 0;
    while i < visuals.len()
        invariant
            i <= visuals.len(),
            poses_finite(visuals@),
            out@ == compiled_all(visuals@.take(i as int)),
        decreases visuals.len() - i,
    {
        out.push(resolve_visual(&visuals[i]));
        assert(out@ =~= compiled_all(visuals@.take(i + 1)));
        i += 1;
    }
    assert(visuals@.take(i as int) =~= visuals@);
    out
}

} // verus!
