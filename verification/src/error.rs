//! The ways in which a description can be rejected.

use vstd::prelude::*;

verus! {

/// Why a scene could not be compiled. Each variant but the cycle names the
/// link or joint at fault.
#[derive(Clone, Debug, PartialEq, Eq)]
pub enum Error {
    /// Two links carry this name.
    DuplicateLink(String),
    /// The joint `joint` names the link `link`, which does not exist.
    UnknownLinkReference { joint: String, link: String },
    /// This link is the child of more than one joint.
    MultipleParents(String),
    /// The joints, read as parent-to-child edges, close a cycle.
    CyclicKinematics,
    /// This joint needs an axis and has none.
    MissingAxis(String),
    /// This joint is planar or floating.
    UnsupportedJointKind(String),
    /// This link has a mesh among its collision primitives.
    UnsupportedGeometry(String),
    /// The inertia of this link is not finite, or its eigenbasis is missing
    /// or not orthonormal.
    InvalidInertiaTensor(String),
}

} // verus!
