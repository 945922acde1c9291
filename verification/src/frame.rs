//! Coordinate frames: a position and a roll-pitch-yaw orientation, resolved
//! into a rigid transform with one fixed rotation order.

use vstd::prelude::*;
use crate::scalar::Vec3;
use crate::scalar::Scalar;

verus! {

/// A pose as a description gives it: a position in metres and a
/// roll-pitch-yaw triple in radians (`rpy.x` is roll, `rpy.y` pitch,
/// `rpy.z` yaw).
#[derive(Clone, Copy, Debug, PartialEq, Eq, Structural)]
pub struct Origin {
    pub xyz: Vec3,
    pub rpy: Vec3,
}

/// An orientation as three intrinsic rotations applied yaw first, then
/// pitch, then roll: the rotation `R_z(yaw) * R_y(pitch) * R_x(roll)`.
#[derive(Clone, Copy, Debug, PartialEq, Eq, Structural)]
pub struct Rotation {
    pub yaw: Scalar,
    pub pitch: Scalar,
    pub roll: Scalar,
}

/// A rigid transform: a translation and an orientation.
#[derive(Clone, Copy, Debug, PartialEq, Eq, Structural)]
pub struct ResolvedFrame {
    pub translation: Vec3,
    pub rotation: Rotation,
}

impl Origin {
    pub open spec fn finite(self) -> bool {
        self.xyz.finite() && self.rpy.finite()
    }

    /// The transform that this pose denotes.
    pub open spec fn resolved(self) -> ResolvedFrame {
        ResolvedFrame {
            translation: self.xyz,
            rotation: Rotation { yaw: self.rpy.z, pitch: self.rpy.y, roll: self.rpy.x },
        }
    }

    pub fn is_finite(&self) -> (r: bool)
        ensures
            r == self.finite(),
    {
        self.xyz.is_finite() && self.rpy.is_finite()
    }
}

impl Rotation {
    pub open spec fn finite(self) -> bool {
        self.yaw.finite() && self.pitch.finite() && self.roll.finite()
    }

    /// All three angles are zero, so the rotation is the identity.
    pub open spec fn identity(self) -> bool {
        self.yaw.zero() && self.pitch.zero() && self.roll.zero()
    }

    /// Whether all three angles are zero. Angles that are whole turns also
    /// give the identity rotation and are not recognised here.
    pub fn is_identity(&self) -> (r: bool)
        ensures
            r == self.identity(),
    {
        self.yaw.is_zero() && self.pitch.is_zero() && self.roll.is_zero()
    }
}

impl ResolvedFrame {
    pub open spec fn finite(self) -> bool {
        self.translation.finite() && self.rotation.finite()
    }
}

/// Resolves a pose into a rigid transform. The translation is the position;
/// the rotation applies yaw, then pitch, then roll.
pub fn compose(origin: &Origin) -> (frame: ResolvedFrame)
    requires
        origin.finite(),
    ensures
        frame == origin.resolved(),
        frame.translation == origin.xyz,
        frame.rotation.yaw == origin.rpy.z,
        frame.rotation.pitch == origin.rpy.y,
        frame.rotation.roll == origin.rpy.x,
        frame.finite(),
        frame.rotation.identity() <==> origin.rpy.x.zero() && origin.rpy.y.zero()
            && origin.rpy.z.zero(),
{
    ResolvedFrame {
        translation: origin.xyz,
        rotation: Rotation { yaw: origin.rpy.z, pitch: origin.rpy.y, roll: origin.rpy.x },
    }
}

/// Resolves a pose if all six of its numbers are finite.
pub fn try_compose(origin: &Origin) -> (frame: Option<ResolvedFrame>)
    ensures
        origin.finite() ==> frame == Some(origin.resolved()),
        !origin.finite() ==> frame.is_none(),
{
    if origin.is_finite() {
        Some(compose(origin))
    } else {
        None
    }
}

} // verus!
