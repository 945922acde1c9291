//! A robot as its description gives it: links and the joints between them,
//! each referring to the other by name, in no particular order.

use vstd::prelude::*;
use crate::collider::poses_finite;
use crate::collider::CollisionPrimitive;
use crate::frame::Origin;
use crate::inertia::EigenSolution;
use crate::inertia::SymmetricTensor;
use crate::joint::JointKind;
use crate::scalar::Scalar;
use crate::scalar::Vec3;
use crate::visual::poses_finite as visual_poses_finite;
use crate::visual::VisualPrimitive;

verus! {

/// The inertial record of a link.
#[derive(Clone, Copy, Debug, PartialEq, Eq, Structural)]
pub struct Inertial {
    pub mass: Scalar,
    /// The centre of mass in the link's local frame.
    pub center_of_mass: Vec3,
    /// The inertia tensor about the centre of mass.
    pub tensor: SymmetricTensor,
    /// What an eigen-solver gave for `tensor`, where one was run.
    pub decomposition: Option<EigenSolution>,
}

/// One rigid body of the robot.
#[derive(Clone, Debug, PartialEq, Eq)]
pub struct LinkDescriptor {
    /// The name that joints refer to; no two links share one.
    pub name: String,
    pub inertial: Option<Inertial>,
    pub collisions: Vec<CollisionPrimitive>,
    pub visuals: Vec<VisualPrimitive>,
}

/// One joint: it attaches the link `child` to the link `parent`.
#[derive(Clone, Debug, PartialEq, Eq)]
pub struct JointDescriptor {
    pub name: String,
    pub kind: JointKind,
    pub parent: String,
    pub child: String,
    /// The pose of the joint in the parent link's frame.
    pub origin: Origin,
    /// The axis of motion; needed by revolute, continuous and prismatic
    /// joints only.
    pub axis: Option<Vec3>,
}

impl LinkDescriptor {
    /// The poses of all collision and visual primitives are finite.
    pub open spec fn poses_finite(&self) -> bool {
        poses_finite(self.collisions@) && visual_poses_finite(self.visuals@)
    }
}

/// The names of the links, in their order.
pub open spec fn link_names(links: Seq<LinkDescriptor>) -> Seq<Seq<char>> {
    Seq::new(links.len(), |i: int| links[i].name@)
}

/// Every pose in the description is finite: those of the links' collision
/// and visual primitives and those of the joints.
pub open spec fn description_finite(links: Seq<LinkDescriptor>, joints: Seq<JointDescriptor>)
    -> bool {
    &&& forall|i: int| 0 <= i < links.len() ==> (#[trigger] links[i]).poses_finite()
    &&& forall|k: int| 0 <= k < joints.len() ==> (#[trigger] joints[k]).origin.finite()
}

} // verus!
