//! Compiles a robot's kinematic description into a physics-ready scene
//! graph: rigid links, joint constraints, compound colliders and principal
//! mass properties.
//!
//! A description is a list of links and a list of joints that refer to
//! each other by name, in no particular order. [`scene::compile_scene`]
//! turns it into a [`scene::SceneGraph`] or refuses it with the first
//! fault it has; nothing is returned of a description with a fault. On the
//! way it uses, and offers on their own:
//!
//! - [`frame::compose`], which resolves a position and a roll-pitch-yaw
//!   triple into a rigid transform with one fixed rotation order;
//! - [`inertia::diagonalize`], which judges the eigen-decomposition of an
//!   inertia tensor and makes principal mass properties of it;
//! - [`collider::compile`], which makes one compound shape of a link's
//!   collision primitives;
//! - [`tree::build`], which resolves the names and builds the forest, by
//!   way of the name index in [`index`];
//! - [`joint::map`], which maps a joint's kind to its constraint.
//!
//! Every function is verified against its contract with Verus. Reals are
//! carried as bit patterns ([`scalar::Scalar`]); the library decides on
//! them in integer arithmetic and leaves floating-point arithmetic, such as
//! the eigen-decomposition itself and the trigonometry of a rotation, to
//! its caller.

pub mod collider;
pub mod description;
pub mod error;
pub mod frame;
pub mod index;
pub mod inertia;
pub mod joint;
pub mod scalar;
pub mod scene;
pub mod tree;
pub mod visual;
