//! From a joint's kind, axis and anchor frame to the constraint it puts
//! on the two links it connects.

use vstd::prelude::*;
use crate::error::Error;
use crate::frame::ResolvedFrame;
use crate::frame::Rotation;
use crate::scalar::Vec3;

verus! {

/// The kinds of joint a description may hold.
#[derive(Clone, Copy, Debug, PartialEq, Eq, Structural)]
pub enum JointKind {
    Fixed,
    Revolute,
    Continuous,
    Prismatic,
    Spherical,
    Planar,
    Floating,
}

/// The relative motion that a constraint leaves free.
#[derive(Clone, Copy, Debug, PartialEq, Eq, Structural)]
pub enum Freedom {
    /// No motion: position and orientation are locked.
    Locked,
    /// Rotation about the axis, within a range.
    Hinge,
    /// Rotation about the axis, without a range.
    UnboundedHinge,
    /// Translation along the axis.
    Slider,
    /// Any rotation about the anchor.
    Ball,
}

/// What a joint demands of the physics engine.
#[derive(Clone, Copy, Debug, PartialEq, Eq, Structural)]
pub struct ConstraintSpec {
    /// The motion left free.
    pub freedom: Freedom,
    /// The point that both links share, in the child link's local frame.
    pub anchor: Vec3,
    /// The locked orientation, for a constraint that locks it.
    pub basis: Option<Rotation>,
    /// The axis of the free motion, for a hinge or a slider.
    pub axis: Option<Vec3>,
}

impl JointKind {
    /// The kinds that this library maps to a constraint.
    pub open spec fn supported(self) -> bool {
        !(self is Planar) && !(self is Floating)
    }

    /// The kinds whose free motion runs about or along an axis.
    pub open spec fn needs_axis(self) -> bool {
        self is Revolute || self is Continuous || self is Prismatic
    }

    /// The motion that a joint of this kind leaves free.
    pub open spec fn freedom(self) -> Freedom
        recommends
            self.supported(),
    {
        match self {
            JointKind::Fixed => Freedom::Locked,
            JointKind::Revolute => Freedom::Hinge,
            JointKind::Continuous => Freedom::UnboundedHinge,
            JointKind::Prismatic => Freedom::Slider,
            _ => Freedom::Ball,
        }
    }

    pub fn is_supported(self) -> (r: bool)
        ensures
            r == self.supported(),
    {
        match self {
            JointKind::Planar => false,
            JointKind::Floating => false,
            _ => true,
        }
    }

    pub fn requires_axis(self) -> (r: bool)
        ensures
            r == self.needs_axis(),
    {
        match self {
            JointKind::Revolute => true,
            JointKind::Continuous => true,
            JointKind::Prismatic => true,
            _ => false,
        }
    }
}

impl Freedom {
    /// How many rotational degrees of freedom stay free.
    pub open spec fn rotational(self) -> nat {
        match self {
            Freedom::Locked => 0,
            Freedom::Hinge => 1,
            Freedom::UnboundedHinge => 1,
            Freedom::Slider => 0,
            Freedom::Ball => 3,
        }
    }

    /// How many translational degrees of freedom stay free.
    pub open spec fn translational(self) -> nat {
        match self {
            Freedom::Slider => 1,
            _ => 0,
        }
    }

    /// Whether the free motion has no range.
    pub open spec fn unbounded(self) -> bool {
        self is UnboundedHinge
    }

    pub fn rotational_dof(self) -> (n: u8)
        ensures
            n == self.rotational(),
    {
        match self {
            Freedom::Locked => 0,
            Freedom::Hinge => 1,
            Freedom::UnboundedHinge => 1,
            Freedom::Slider => 0,
            Freedom::Ball => 3,
        }
    }

    pub fn translational_dof(self) -> (n: u8)
        ensures
            n == self.translational(),
    {
        match self {
            Freedom::Slider => 1,
            _ => 0,
        }
    }

    pub fn is_unbounded(self) -> (r: bool)
        ensures
            r == self.unbounded(),
    {
        match self {
            Freedom::UnboundedHinge => true,
            _ => false,
        }
    }
}

/// The constraint that a supported joint with its axis at hand maps to.
pub open spec fn constraint_of(kind: JointKind, axis: Option<Vec3>, anchor: ResolvedFrame)
    -> ConstraintSpec
    recommends
        kind.supported(),
        kind.needs_axis() ==> axis.is_some(),
{
    ConstraintSpec {
        freedom: kind.freedom(),
        anchor: anchor.translation,
        basis: if kind is Fixed {
            Some(anchor.rotation)
        } else {
            None
        },
        axis: if kind.needs_axis() {
            axis
        } else {
            None
        },
    }
}

/// Maps a joint to its constraint. `name` is the joint's name, `anchor` its
/// origin resolved in the child link's local frame.
///
/// A planar or floating joint is refused. A revolute, continuous or
/// prismatic joint without an axis is refused. For the other kinds an axis
/// is ignored.
pub fn map(name: &String, kind: JointKind, axis: Option<Vec3>, anchor: &ResolvedFrame) -> (r:
    Result<ConstraintSpec, Error>)
    ensures
        !kind.supported() ==> (r matches Err(Error::UnsupportedJointKind(n)) && n@ == name@),
        kind.supported() && kind.needs_axis() && axis.is_none() ==> (r matches Err(
            Error::MissingAxis(n),
        ) && n@ == name@),
        kind.supported() && (kind.needs_axis() ==> axis.is_some()) ==> r == Ok::<
            ConstraintSpec,
            Error,
        >(constraint_of(kind, axis, *anchor)),
        r matches Ok(spec) ==> {
            &&& spec.anchor == anchor.translation
            &&& spec.freedom == kind.freedom()
            &&& (kind is Revolute ==> spec.freedom.rotational() == 1
                && spec.freedom.translational() == 0 && spec.axis == axis)
            &&& (kind is Prismatic ==> spec.freedom.rotational() == 0
                && spec.freedom.translational() == 1 && spec.axis == axis)
            &&& (kind is Fixed ==> spec.freedom.rotational() == 0
                && spec.freedom.translational() == 0)
            &&& (kind is Spherical ==> spec.freedom.rotational() == 3
                && spec.freedom.translational() == 0)
        },
{
    if !kind.is_supported() {
        return Err(Error::UnsupportedJointKind(name.clone()));
    }
    if kind.requires_axis() {
        match axis {
            None => Err(Error::MissingAxis(name.clone())),
            Some(a) => {
                let freedom = match kind {
                    JointKind::Revolute => Freedom::Hinge,
                    JointKind::Continuous => Freedom::UnboundedHinge,
                    _ => Freedom::Slider,
                };
                Ok(ConstraintSpec { freedom, anchor: anchor.translation, basis: None, axis: Some(a) })
            },
        }
    } else {
        match kind {
            JointKind::Fixed => Ok(
                ConstraintSpec {
                    freedom: Freedom::Locked,
                    anchor: anchor.translation,
                    basis: Some(anchor.rotation),
                    axis: None,
                },
            ),
            _ => Ok(
                ConstraintSpec {
                    freedom: Freedom::Ball,
                    anchor: anchor.translation,
                    basis: None,
                    axis: None,
                },
            ),
        }
    }
}

} // verus!
