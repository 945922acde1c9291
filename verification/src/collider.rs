//! From a link's collision primitives to one compound collision shape.

use vstd::prelude::*;
use crate::error::Error;
use crate::frame::compose;
use crate::frame::Origin;
use crate::frame::ResolvedFrame;
use crate::scalar::Scalar;
use crate::scalar::Vec3;

verus! {

/// The geometry of a collision primitive as a description gives it.
#[derive(Clone, Copy, Debug, PartialEq, Eq, Structural)]
pub enum Geometry {
    Box { half_extents: Vec3 },
    Cylinder { radius: Scalar, half_length: Scalar },
    Sphere { radius: Scalar },
    Capsule { radius: Scalar, half_length: Scalar },
    /// A triangle mesh. Meshes are for display only and cannot collide.
    Mesh,
}

/// A geometry that can collide.
#[derive(Clone, Copy, Debug, PartialEq, Eq, Structural)]
pub enum PrimitiveShape {
    Box { half_extents: Vec3 },
    Cylinder { radius: Scalar, half_length: Scalar },
    Sphere { radius: Scalar },
    Capsule { radius: Scalar, half_length: Scalar },
}

/// One collision primitive of a link: a geometry and its pose in the link's
/// local frame.
#[derive(Clone, Copy, Debug, PartialEq, Eq, Structural)]
pub struct CollisionPrimitive {
    pub geometry: Geometry,
    pub origin: Origin,
}

/// One part of a compound shape.
#[derive(Clone, Copy, Debug, PartialEq, Eq, Structural)]
pub struct SubShape {
    pub local_frame: ResolvedFrame,
    pub shape: PrimitiveShape,
}

/// The union of one or more primitive shapes, each at its own local frame.
#[derive(Clone, Debug, PartialEq, Eq)]
pub struct CompositeShape {
    pub parts: Vec<SubShape>,
}

impl Geometry {
    /// The shape that this geometry collides as; a mesh has none.
    pub open spec fn shape(self) -> Option<PrimitiveShape> {
        match self {
            Geometry::Box { half_extents } => Some(PrimitiveShape::Box { half_extents }),
            Geometry::Cylinder { radius, half_length } => Some(
                PrimitiveShape::Cylinder { radius, half_length },
            ),
            Geometry::Sphere { radius } => Some(PrimitiveShape::Sphere { radius }),
            Geometry::Capsule { radius, half_length } => Some(
                PrimitiveShape::Capsule { radius, half_length },
            ),
            Geometry::Mesh => None,
        }
    }

    pub fn collision_shape(&self) -> (r: Option<PrimitiveShape>)
        ensures
            r == self.shape(),
    {
        match *self {
            Geometry::Box { half_extents } => Some(PrimitiveShape::Box { half_extents }),
            Geometry::Cylinder { radius, half_length } => Some(
                PrimitiveShape::Cylinder { radius, half_length },
            ),
            Geometry::Sphere { radius } => Some(PrimitiveShape::Sphere { radius }),
            Geometry::Capsule { radius, half_length } => Some(
                PrimitiveShape::Capsule { radius, half_length },
            ),
            Geometry::Mesh => None,
        }
    }
}

impl CollisionPrimitive {
    /// The part of a compound shape that this primitive becomes.
    pub open spec fn part(self) -> SubShape
        recommends
            self.geometry.shape().is_some(),
    {
        SubShape { local_frame: self.origin.resolved(), shape: self.geometry.shape().unwrap() }
    }
}

impl View for CompositeShape {
    type V = Seq<SubShape>;

    open spec fn view(&self) -> Seq<SubShape> {
        self.parts@
    }
}

impl CompositeShape {
    /// A compound shape has at least one part.
    pub open spec fn wf(&self) -> bool {
        self.parts@.len() > 0
    }

    /// The number of sub-shapes.
    pub fn len(&self) -> (n: usize)
        ensures
            n == self@.len(),
    {
        self.parts.len()
    }
}

/// Whether a mesh stands among the primitives.
pub open spec fn has_mesh(primitives: Seq<CollisionPrimitive>) -> bool {
    exists|i: int| 0 <= i < primitives.len() && (#[trigger] primitives[i]).geometry is Mesh
}

/// Whether each primitive's pose is finite.
pub open spec fn poses_finite(primitives: Seq<CollisionPrimitive>) -> bool {
    forall|i: int| 0 <= i < primitives.len() ==> (#[trigger] primitives[i]).origin.finite()
}

/// The parts of the compound shape of primitives without a mesh.
pub open spec fn parts_of(primitives: Seq<CollisionPrimitive>) -> Seq<SubShape> {
    Seq::new(primitives.len(), |i: int| primitives[i].part())
}

/// Tests that each primitive's pose is finite.
pub fn check_poses(primitives: &Vec<CollisionPrimitive>) -> (r: bool)
    ensures
        r == poses_finite(primitives@),
{
    let mut i: usize = 0;
    while i < primitives.len()
        invariant
            i <= primitives.len(),
            poses_finite(primitives@.take(i as int)),
        decreases primitives.len() - i,
    {
        if !primitives[i].origin.is_finite() {
            return false;
        }
        assert forall|j: int| 0 <= j < i + 1 implies (#[trigger] primitives@.take(i + 1)[j]).origin.finite() by {
            if j < i {
                assert(primitives@.take(i as int)[j].origin.finite());
            }
        }
        i += 1;
    }
    assert(primitives@.take(i as int) =~= primitives@);
    true
}

/// Compiles the collision primitives of the link `link` into one compound
/// shape, part `i` from primitive `i`.
///
/// No primitives give no collider. A mesh among them is refused, wherever
/// it stands.
pub fn compile(link: &String, primitives: &Vec<CollisionPrimitive>) -> (r: Result<
    Option<CompositeShape>,
    Error,
>)
    requires
        poses_finite(primitives@),
    ensures
        has_mesh(primitives@) ==> (r matches Err(Error::UnsupportedGeometry(n)) && n@ == link@),
        !has_mesh(primitives@) && primitives@.len() == 0 ==> r matches Ok(None),
        !has_mesh(primitives@) && primitives@.len() > 0 ==> (r matches Ok(Some(shape))
            && shape@ == parts_of(primitives@) && shape.wf()),
        r matches Ok(Some(shape)) ==> shape@.len() == primitives@.len(),
{
    let mut parts: Vec<SubShape> = Vec::new();
    let mut i: usize = 0;
    while i < primitives.len()
        invariant
            i <= primitives.len(),
            poses_finite(primitives@),
            !has_mesh(primitives@.take(i as int)),
            parts@ == parts_of(primitives@.take(i as int)),
        decreases primitives.len() - i,
    {
        let primitive = primitives[i];
        match primitive.geometry.collision_shape() {
            None => {
                assert(primitives@[i as int].geometry is Mesh);
                return Err(Error::UnsupportedGeometry(link.clone()));
            },
            Some(shape) => {
                let local_frame = compose(&primitive.origin);
                parts.push(SubShape { local_frame, shape });
            },
        }
        assert(parts@ =~= parts_of(primitives@.take(i + 1)));
        assert(!has_mesh(primitives@.take(i + 1))) by {
            if has_mesh(primitives@.take(i + 1)) {
                let j = choose|j: int|
                    0 <= j < i + 1 && (#[trigger] primitives@.take(i + 1)[j]).geometry is Mesh;
                if j < i {
                    assert(primitives@.take(i as int)[j].geometry is Mesh);
                }
            }
        }
        i += 1;
    }
    assert(primitives@.take(i as int) =~= primitives@);
    if parts.len() == 0 {
        Ok(None)
    } else {
        Ok(Some(CompositeShape { parts }))
    }
}

} // verus!
