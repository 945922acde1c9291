//! The scene compiler: from a whole description to a scene graph, in two
//! passes. The first makes each link, the second wires the joints, which
//! needs both their links made.

use vstd::prelude::*;
use crate::collider::compile;
use crate::collider::has_mesh;
use crate::collider::parts_of;
use crate::collider::CompositeShape;
use crate::description::description_finite;
use crate::description::link_names;
use crate::description::JointDescriptor;
use crate::description::LinkDescriptor;
use crate::error::Error;
use crate::frame::compose;
use crate::frame::ResolvedFrame;
use crate::inertia::decomposable;
use crate::inertia::diagonalize;
use crate::inertia::principal;
use crate::inertia::MassProperties;
use crate::joint::constraint_of;
use crate::joint::ConstraintSpec;
use crate::scalar::Scalar;
use crate::tree::build;
use crate::tree::refusal;
use crate::tree::verdict;
use crate::tree::Edge;
use crate::tree::SceneSkeleton;
use crate::tree::Verdict;
use crate::visual::check_poses as check_visual_poses;
use crate::visual::compiled_all;
use crate::visual::resolve_visuals;
use crate::visual::CompiledVisual;

verus! {

/// The label that says which bodies a body may collide with.
#[derive(Clone, Copy, Debug, PartialEq, Eq, Structural)]
pub enum CollisionGroup {
    /// The ground and what stands fixed on it.
    Environment,
    /// A link of the robot.
    RobotBody,
    /// A body that moves freely, such as a ball.
    FreeObject,
}

impl CollisionGroup {
    /// Whether a body of this group may collide with one of the other: any
    /// two but two links of the robot.
    pub open spec fn interacts(self, other: CollisionGroup) -> bool {
        !(self is RobotBody && other is RobotBody)
    }

    /// The group as a bit, one bit for each group.
    pub fn membership(self) -> (bits: u32)
        ensures
            bits == match self {
                CollisionGroup::Environment => 1u32,
                CollisionGroup::RobotBody => 2u32,
                CollisionGroup::FreeObject => 4u32,
            },
    {
        match self {
            CollisionGroup::Environment => 1,
            CollisionGroup::RobotBody => 2,
            CollisionGroup::FreeObject => 4,
        }
    }

    /// The bits of the groups that a body of this group lets itself be
    /// tested against.
    pub fn filter(self) -> (bits: u32)
        ensures
            bits == match self {
                CollisionGroup::Environment => 0xffff_ffffu32,
                CollisionGroup::RobotBody => 5u32,
                CollisionGroup::FreeObject => 0xffff_ffffu32,
            },
    {
        match self {
            CollisionGroup::Environment => 0xffff_ffff,
            CollisionGroup::RobotBody => 5,
            CollisionGroup::FreeObject => 0xffff_ffff,
        }
    }

    /// Tests two groups as a physics engine does: each one's bit must be in
    /// the other's filter.
    pub fn collides_with(self, other: CollisionGroup) -> (r: bool)
        ensures
            r == self.interacts(other),
    {
        let a: u32 = self.membership();
        let b: u32 = other.membership();
        let fa: u32 = self.filter();
        let fb: u32 = other.filter();
        assert(1u32 & 0xffff_ffffu32 != 0 && 2u32 & 0xffff_ffffu32 != 0 && 4u32 & 0xffff_ffffu32 != 0
            && 1u32 & 5u32 != 0 && 4u32 & 5u32 != 0 && 2u32 & 5u32 == 0) by (bit_vector);
        (a & fb) != 0 && (b & fa) != 0
    }
}

/// What the physics engine at hand can do.
#[derive(Clone, Copy, Debug, PartialEq, Eq, Structural)]
pub struct Engine {
    /// Whether it has a hinge without a range. Where it has none, a
    /// continuous joint gets no constraint and its child link hangs free.
    pub unbounded_hinges: bool,
}

/// A link ready for the physics engine.
#[derive(Clone, Debug, PartialEq, Eq)]
pub struct CompiledLink {
    /// The link's place in the description.
    pub id: usize,
    pub name: String,
    /// The compound collision shape; none for a link without collision
    /// primitives.
    pub collider: Option<CompositeShape>,
    /// The principal mass properties; none for a link without an inertial
    /// record or with the zero tensor.
    pub mass_properties: Option<MassProperties>,
    /// The mass, where it is above zero: such a link is a body of its own.
    pub body_mass: Option<Scalar>,
    pub group: CollisionGroup,
    pub visuals: Vec<CompiledVisual>,
}

/// A joint ready for the physics engine.
#[derive(Clone, Debug, PartialEq, Eq)]
pub struct CompiledJoint {
    /// The joint's place in the description.
    pub id: usize,
    pub name: String,
    pub parent: usize,
    pub child: usize,
    /// The joint's origin: where the child link stands in the parent's
    /// frame.
    pub frame: ResolvedFrame,
    /// The constraint; none for a continuous joint on an engine without
    /// unbounded hinges.
    pub constraint: Option<ConstraintSpec>,
}

/// A compiled scene: its links and joints by identifier, and the forest
/// they form.
#[derive(Clone, Debug)]
pub struct SceneGraph {
    pub links: Vec<CompiledLink>,
    pub joints: Vec<CompiledJoint>,
    pub skeleton: SceneSkeleton,
}

/// The link has an inertia that cannot be diagonalized: its tensor is not
/// zero, and an input is not finite or the eigen-solution is missing or
/// not acceptable.
pub open spec fn inertia_fault(link: LinkDescriptor) -> bool {
    link.inertial matches Some(inertial) && !inertial.tensor.zero() && !(decomposable(
        inertial.tensor,
        inertial.center_of_mass,
        inertial.mass,
    ) && inertial.decomposition.is_some() && inertial.decomposition.unwrap().acceptable())
}

/// The link cannot be compiled.
pub open spec fn link_fault(link: LinkDescriptor) -> bool {
    inertia_fault(link) || has_mesh(link.collisions@)
}

/// The error that a link that cannot be compiled is refused with: its
/// inertia comes before its geometry.
pub open spec fn link_error(link: LinkDescriptor, e: Error) -> bool {
    if inertia_fault(link) {
        e matches Error::InvalidInertiaTensor(n) && n@ == link.name@
    } else {
        e matches Error::UnsupportedGeometry(n) && n@ == link.name@
    }
}

/// The mass properties that a link without fault compiles to.
pub open spec fn mass_properties_of(link: LinkDescriptor) -> Option<MassProperties> {
    match link.inertial {
        Some(inertial) => if inertial.tensor.zero() {
            None
        } else {
            Some(
                principal(inertial.center_of_mass, inertial.mass, inertial.decomposition.unwrap()),
            )
        },
        None => None,
    }
}

/// The mass of a link, where it has one above zero.
pub open spec fn body_mass_of(link: LinkDescriptor) -> Option<Scalar> {
    match link.inertial {
        Some(inertial) => if inertial.mass.positive() {
            Some(inertial.mass)
        } else {
            None
        },
        None => None,
    }
}

/// `out` is what the link with fault-free description `link` and
/// identifier `id` compiles to.
pub open spec fn link_compiled(link: LinkDescriptor, id: int, out: CompiledLink) -> bool {
    &&& out.id == id
    &&& out.name@ == link.name@
    &&& out.group == CollisionGroup::RobotBody
    &&& out.mass_properties == mass_properties_of(link)
    &&& out.body_mass == body_mass_of(link)
    &&& out.visuals@ == compiled_all(link.visuals@)
    &&& match out.collider {
        Some(shape) => link.collisions@.len() > 0 && shape@ == parts_of(link.collisions@),
        None => link.collisions@.len() == 0,
    }
}

/// The joint cannot be mapped to a constraint.
pub open spec fn joint_fault(joint: JointDescriptor) -> bool {
    !joint.kind.supported() || (joint.kind.needs_axis() && joint.axis.is_none())
}

/// The error that a joint that cannot be mapped is refused with.
pub open spec fn joint_error(joint: JointDescriptor, e: Error) -> bool {
    if !joint.kind.supported() {
        e matches Error::UnsupportedJointKind(n) && n@ == joint.name@
    } else {
        e matches Error::MissingAxis(n) && n@ == joint.name@
    }
}

/// The constraint that a joint gets on an engine: the one that its kind
/// maps to, or none for a continuous joint where the engine has no
/// unbounded hinge.
pub open spec fn emitted(joint: JointDescriptor, engine: Engine) -> Option<ConstraintSpec> {
    if joint.kind.freedom().unbounded() && !engine.unbounded_hinges {
        None
    } else {
        Some(constraint_of(joint.kind, joint.axis, joint.origin.resolved()))
    }
}

/// `out` is what the fault-free joint `joint` with identifier `id` and the
/// resolved links of `edge` compiles to.
pub open spec fn joint_compiled(
    joint: JointDescriptor,
    id: int,
    edge: Edge,
    engine: Engine,
    out: CompiledJoint,
) -> bool {
    &&& out.id == id
    &&& out.name@ == joint.name@
    &&& out.parent == edge.parent
    &&& out.child == edge.child
    &&& out.frame == joint.origin.resolved()
    &&& out.constraint == emitted(joint, engine)
}

/// Link `i` is the first that cannot be compiled.
pub open spec fn first_link_fault(links: Seq<LinkDescriptor>, i: int) -> bool {
    &&& 0 <= i < links.len()
    &&& link_fault(links[i])
    &&& forall|h: int| 0 <= h < i ==> !link_fault(#[trigger] links[h])
}

/// Some link cannot be compiled.
pub open spec fn any_link_fault(links: Seq<LinkDescriptor>) -> bool {
    exists|i: int| 0 <= i < links.len() && link_fault(#[trigger] links[i])
}

/// Joint `k` is the first that cannot be mapped.
pub open spec fn first_joint_fault(joints: Seq<JointDescriptor>, k: int) -> bool {
    &&& 0 <= k < joints.len()
    &&& joint_fault(joints[k])
    &&& forall|h: int| 0 <= h < k ==> !joint_fault(#[trigger] joints[h])
}

/// Some joint cannot be mapped.
pub open spec fn any_joint_fault(joints: Seq<JointDescriptor>) -> bool {
    exists|k: int| 0 <= k < joints.len() && joint_fault(#[trigger] joints[k])
}

impl SceneGraph {
    /// Every joint connects two links of the graph, links and joints stand
    /// at the places their identifiers say, and the joints make the links
    /// a forest.
    pub open spec fn wf(&self) -> bool {
        &&& self.skeleton.wf()
        &&& self.links@.len() == self.skeleton.index@.len()
        &&& self.joints@.len() == self.skeleton.edges@.len()
        &&& forall|i: int| 0 <= i < self.links@.len() ==> (#[trigger] self.links@[i]).id == i
        &&& forall|k: int|
            0 <= k < self.joints@.len() ==> {
                &&& (#[trigger] self.joints@[k]).id == k
                &&& self.joints@[k].parent == self.skeleton.edges@[k].parent
                &&& self.joints@[k].child == self.skeleton.edges@[k].child
                &&& self.joints@[k].parent < self.links@.len()
                &&& self.joints@[k].child < self.links@.len()
            }
    }

    /// The number of links.
    pub fn link_count(&self) -> (n: usize)
        ensures
            n == self.links@.len(),
    {
        self.links.len()
    }

    /// The number of joints.
    pub fn joint_count(&self) -> (n: usize)
        ensures
            n == self.joints@.len(),
    {
        self.joints.len()
    }
}

/// Compiles one link: its mass properties first, then its collider, then
/// its visual primitives. Every link of a robot gets the group of the
/// robot's bodies.
pub fn compile_link(id: usize, link: &LinkDescriptor) -> (r: Result<CompiledLink, Error>)
    requires
        link.poses_finite(),
    ensures
        link_fault(*link) ==> (r matches Err(e) && link_error(*link, e)),
        !link_fault(*link) ==> (r matches Ok(out) && link_compiled(*link, id as int, out)),
{
    let (mass_properties, body_mass) = match link.inertial {
        Some(inertial) => {
            let properties = match diagonalize(
                &link.name,
                &inertial.tensor,
                &inertial.center_of_mass,
                inertial.mass,
                inertial.decomposition,
            ) {
                Ok(p) => p,
                Err(e) => {
                    return Err(e);
                },
            };
            let body_mass = if inertial.mass.is_positive() {
                Some(inertial.mass)
            } else {
                None
            };
            (properties, body_mass)
        },
        None => (None, None),
    };
    let collider = match compile(&link.name, &link.collisions) {
        Ok(c) => c,
        Err(e) => {
            return Err(e);
        },
    };
    let visuals = resolve_visuals(&link.visuals);
    Ok(
        CompiledLink {
            id,
            name: link.name.clone(),
            collider,
            mass_properties,
            body_mass,
            group: CollisionGroup::RobotBody,
            visuals,
        },
    )
}

/// Compiles one joint between the links of `edge`: resolves its origin,
/// maps its kind to a constraint, and drops the constraint of a continuous
/// joint where the engine has no unbounded hinge.
pub fn compile_joint(id: usize, joint: &JointDescriptor, edge: Edge, engine: Engine) -> (r: Result<
    CompiledJoint,
    Error,
>)
    requires
        joint.origin.finite(),
    ensures
        joint_fault(*joint) ==> (r matches Err(e) && joint_error(*joint, e)),
        !joint_fault(*joint) ==> (r matches Ok(out) && joint_compiled(
            *joint,
            id as int,
            edge,
            engine,
            out,
        )),
{
    let frame = compose(&joint.origin);
    let spec = match crate::joint::map(&joint.name, joint.kind, joint.axis, &frame) {
        Ok(spec) => spec,
        Err(e) => {
            return Err(e);
        },
    };
    let constraint = if spec.freedom.is_unbounded() && !engine.unbounded_hinges {
        None
    } else {
        Some(spec)
    };
    Ok(
        CompiledJoint {
            id,
            name: joint.name.clone(),
            parent: edge.parent,
            child: edge.child,
            frame,
            constraint,
        },
    )
}

/// Tests that every pose of a description is finite.
pub fn check_description(links: &Vec<LinkDescriptor>, joints: &Vec<JointDescriptor>) -> (r: bool)
    ensures
        r == description_finite(links@, joints@),
{
    let mut i: usize = 0;
    while i < links.len()
        invariant
            i <= links.len(),
            forall|h: int| 0 <= h < i ==> (#[trigger] links@[h]).poses_finite(),
        decreases links.len() - i,
    {
        if !crate::collider::check_poses(&links[i].collisions) {
            return false;
        }
        if !check_visual_poses(&links[i].visuals) {
            return false;
        }
        i += 1;
    }
    let mut k: usize = 0;
    while k < joints.len()
        invariant
            k <= joints.len(),
            forall|h: int| 0 <= h < links@.len() ==> (#[trigger] links@[h]).poses_finite(),
            forall|h: int| 0 <= h < k ==> (#[trigger] joints@[h]).origin.finite(),
        decreases joints.len() - k,
    {
        if !joints[k].origin.is_finite() {
            return false;
        }
        k += 1;
    }
    true
}

/// `scene` is the compiled form of a description without fault.
pub open spec fn scene_compiled(
    links: Seq<LinkDescriptor>,
    joints: Seq<JointDescriptor>,
    engine: Engine,
    scene: SceneGraph,
) -> bool {
    &&& scene.wf()
    &&& scene.skeleton.describes(links, joints)
    &&& scene.links@.len() == links.len()
    &&& scene.joints@.len() == joints.len()
    &&& forall|i: int|
        0 <= i < links.len() ==> link_compiled(links[i], i, #[trigger] scene.links@[i])
    &&& forall|k: int|
        0 <= k < joints.len() ==> joint_compiled(
            joints[k],
            k,
            scene.skeleton.edges@[k],
            engine,
            #[trigger] scene.joints@[k],
        )
}

/// Compiles a description into a scene graph, or refuses it with the first
/// fault found. Nothing is returned of a description that has a fault.
///
/// The forest is built first; see [`build`] for its faults and their
/// order. Then each link is compiled, in the order of the description, and
/// the first link that cannot be stops the work; then each joint
/// likewise.
pub fn compile_scene(links: &Vec<LinkDescriptor>, joints: &Vec<JointDescriptor>, engine: Engine) -> (r:
    Result<SceneGraph, Error>)
    requires
        description_finite(links@, joints@),
    ensures
        !(verdict(link_names(links@), joints@) is Valid) ==> (r matches Err(e) && refusal(
            link_names(links@),
            joints@,
            e,
        )),
        verdict(link_names(links@), joints@) is Valid && any_link_fault(links@) ==> (r matches Err(e)
            && exists|i: int| #[trigger] first_link_fault(links@, i) && link_error(links@[i], e)),
        verdict(link_names(links@), joints@) is Valid && !any_link_fault(links@) && any_joint_fault(
            joints@,
        ) ==> (r matches Err(e) && exists|k: int|
            #[trigger] first_joint_fault(joints@, k) && joint_error(joints@[k], e)),
        verdict(link_names(links@), joints@) is Valid && !any_link_fault(links@) && !any_joint_fault(
            joints@,
        ) ==> (r matches Ok(scene) && scene_compiled(links@, joints@, engine, scene)),
{
    let skeleton = match build(links, joints) {
        Ok(skeleton) => skeleton,
        Err(e) => {
            return Err(e);
        },
    };
    let mut compiled_links: Vec<CompiledLink> = Vec::new();
    let mut i: usize = 0;
    while i < links.len()
        invariant
            i <= links.len(),
            description_finite(links@, joints@),
            verdict(link_names(links@), joints@) is Valid,
            compiled_links@.len() == i,
            forall|h: int| 0 <= h < i ==> !link_fault(#[trigger] links@[h]),
            forall|h: int| 0 <= h < i ==> link_compiled(links@[h], h, #[trigger] compiled_links@[h]),
        decreases links.len() - i,
    {
        match compile_link(i, &links[i]) {
            Ok(out) => {
                compiled_links.push(out);
            },
            Err(e) => {
                assert(first_link_fault(links@, i as int));
                return Err(e);
            },
        }
        i += 1;
    }
    let mut compiled_joints: Vec<CompiledJoint> = Vec::new();
    let mut k: usize = 0;
    while k < joints.len()
        invariant
            k <= joints.len(),
            description_finite(links@, joints@),
            verdict(link_names(links@), joints@) is Valid,
            skeleton.wf(),
            skeleton.describes(links@, joints@),
            skeleton.edges@.len() == joints@.len(),
            compiled_joints@.len() == k,
            forall|h: int| 0 <= h < links@.len() ==> !link_fault(#[trigger] links@[h]),
            forall|h: int| 0 <= h < k ==> !joint_fault(#[trigger] joints@[h]),
            forall|h: int|
                0 <= h < k ==> joint_compiled(
                    joints@[h],
                    h,
                    skeleton.edges@[h],
                    engine,
                    #[trigger] compiled_joints@[h],
                ),
        decreases joints.len() - k,
    {
        match compile_joint(k, &joints[k], skeleton.edges[k], engine) {
            Ok(out) => {
                compiled_joints.push(out);
            },
            Err(e) => {
                assert(first_joint_fault(joints@, k as int));
                return Err(e);
            },
        }
        k += 1;
    }
    let scene = SceneGraph { links: compiled_links, joints: compiled_joints, skeleton };
    proof {
        assert forall|q: int| 0 <= q < scene.joints@.len() implies {
            &&& (#[trigger] scene.joints@[q]).id == q
            &&& scene.joints@[q].parent == scene.skeleton.edges@[q].parent
            &&& scene.joints@[q].child == scene.skeleton.edges@[q].child
            &&& scene.joints@[q].parent < scene.links@.len()
            &&& scene.joints@[q].child < scene.links@.len()
        } by {
            let e = scene.skeleton.edges@[q];
            assert(e.parent < link_names(links@).len());
        }
    }
    Ok(scene)
}

/// Compiles a description after testing that every pose in it is finite;
/// gives nothing where one is not.
pub fn compile_checked(links: &Vec<LinkDescriptor>, joints: &Vec<JointDescriptor>, engine: Engine) -> (r:
    Option<Result<SceneGraph, Error>>)
    ensures
        r.is_some() == description_finite(links@, joints@),
        r matches Some(Ok(scene)) ==> scene_compiled(links@, joints@, engine, scene),
        r matches Some(Err(e)) ==> {
            ||| refusal(link_names(links@), joints@, e)
            ||| exists|i: int| #[trigger] first_link_fault(links@, i) && link_error(links@[i], e)
            ||| exists|k: int| #[trigger] first_joint_fault(joints@, k) && joint_error(joints@[k], e)
        },
{
    if check_description(links, joints) {
        Some(compile_scene(links, joints, engine))
    } else {
        None
    }
}

} // verus!
