//! From a link's inertia tensor to its principal moments and axes.
//!
//! The eigen-decomposition itself is floating-point work and is done by the
//! caller. This module decides what to do with it: whether one is needed at
//! all, whether the eigenvectors at hand are orthonormal, which way they
//! must point, and which moments are kept. It decides in exact integer
//! arithmetic on the eigenvectors as fixed-point numbers.

use vstd::prelude::*;
use crate::error::Error;
use crate::scalar::Scalar;
use crate::scalar::Vec3;
use crate::scalar::FIXED_BOUND;

verus! {

/// The number one as a fixed-point number with 80 binary places, which a
/// product of two numbers with 40 places has.
pub const UNIT: i128 = 0x1_0000_0000_0000_0000_0000;

/// The reciprocal of the tolerance: two numbers count as equal if they
/// differ by no more than one part in this many.
pub const PARTS: i128 = 100_000;

/// The six independent entries of a symmetric 3x3 matrix.
#[derive(Clone, Copy, Debug, PartialEq, Eq, Structural)]
pub struct SymmetricTensor {
    pub xx: Scalar,
    pub xy: Scalar,
    pub xz: Scalar,
    pub yy: Scalar,
    pub yz: Scalar,
    pub zz: Scalar,
}

/// Three vectors, read as the columns of a 3x3 matrix.
#[derive(Clone, Copy, Debug, PartialEq, Eq, Structural)]
pub struct Basis3 {
    pub x_axis: Vec3,
    pub y_axis: Vec3,
    pub z_axis: Vec3,
}

/// Which way three vectors turn.
#[derive(Clone, Copy, Debug, PartialEq, Eq, Structural)]
pub enum Handedness {
    /// The third vector points as the cross product of the first two.
    Right,
    /// The third vector points against the cross product of the first two.
    Left,
    /// The vectors lie in one plane.
    Flat,
}

/// What a numeric eigen-solver gives for a symmetric tensor.
#[derive(Clone, Copy, Debug, PartialEq, Eq, Structural)]
pub struct EigenSolution {
    /// The eigenvalues; `values.x` belongs to `vectors.x_axis`, and so on.
    pub values: Vec3,
    /// The eigenvectors.
    pub vectors: Basis3,
}

/// The mass distribution of a link in the frame of its principal axes.
#[derive(Clone, Copy, Debug, PartialEq, Eq, Structural)]
pub struct MassProperties {
    pub mass: Scalar,
    /// The centre of mass in the link's local frame.
    pub local_center_of_mass: Vec3,
    /// The principal moments, none of them negative.
    pub principal_inertia: Vec3,
    /// The principal axes as the columns of a rotation matrix that turns
    /// the link's local frame into the frame of the axes: orthonormal
    /// within the tolerance, and right-handed.
    pub principal_axes: Basis3,
    /// How many eigenvalues were negative and are given as zero.
    pub clamped_moments: u8,
}

impl SymmetricTensor {
    /// Every entry is a zero.
    pub open spec fn zero(self) -> bool {
        self.xx.zero() && self.xy.zero() && self.xz.zero() && self.yy.zero() && self.yz.zero()
            && self.zz.zero()
    }

    pub open spec fn finite(self) -> bool {
        self.xx.finite() && self.xy.finite() && self.xz.finite() && self.yy.finite()
            && self.yz.finite() && self.zz.finite()
    }

    pub fn is_zero(&self) -> (r: bool)
        ensures
            r == self.zero(),
    {
        self.xx.is_zero() && self.xy.is_zero() && self.xz.is_zero() && self.yy.is_zero()
            && self.yz.is_zero() && self.zz.is_zero()
    }

    pub fn is_finite(&self) -> (r: bool)
        ensures
            r == self.finite(),
    {
        self.xx.is_finite() && self.xy.is_finite() && self.xz.is_finite() && self.yy.is_finite()
            && self.yz.is_finite() && self.zz.is_finite()
    }
}

impl Basis3 {
    pub open spec fn finite(self) -> bool {
        self.x_axis.finite() && self.y_axis.finite() && self.z_axis.finite()
    }

    /// No entry is larger than two in magnitude.
    pub open spec fn bounded(self) -> bool {
        self.x_axis.bounded() && self.y_axis.bounded() && self.z_axis.bounded()
    }

    /// The determinant of the matrix of the three vectors, each entry cut
    /// to 40 binary places: a fixed-point number with 120 places.
    pub open spec fn determinant(self) -> int {
        let a = self.x_axis;
        let b = self.y_axis;
        let c = self.z_axis;
        a.x.cut() * (b.y.cut() * c.z.cut() - c.y.cut() * b.z.cut()) - b.x.cut() * (a.y.cut()
            * c.z.cut() - c.y.cut() * a.z.cut()) + c.x.cut() * (a.y.cut() * b.z.cut() - b.y.cut()
            * a.z.cut())
    }

    /// The vectors are orthonormal within the tolerance: cut to 40 binary
    /// places, each has a product with itself within 0.00001 of one and a
    /// product with each other within 0.00001 of zero.
    pub open spec fn orthonormal(self) -> bool {
        &&& near(dot(self.x_axis, self.x_axis), UNIT as int)
        &&& near(dot(self.y_axis, self.y_axis), UNIT as int)
        &&& near(dot(self.z_axis, self.z_axis), UNIT as int)
        &&& near(dot(self.x_axis, self.y_axis), 0)
        &&& near(dot(self.x_axis, self.z_axis), 0)
        &&& near(dot(self.y_axis, self.z_axis), 0)
    }

    /// Which way the vectors turn, by the sign of their determinant.
    pub open spec fn handedness(self) -> Handedness {
        if self.determinant() > 0 {
            Handedness::Right
        } else if self.determinant() < 0 {
            Handedness::Left
        } else {
            Handedness::Flat
        }
    }

    /// The basis with its third vector pointing the other way.
    pub open spec fn mirrored(self) -> Basis3 {
        Basis3 { x_axis: self.x_axis, y_axis: self.y_axis, z_axis: self.z_axis.opposite() }
    }

    pub fn is_finite(&self) -> (r: bool)
        ensures
            r == self.finite(),
    {
        self.x_axis.is_finite() && self.y_axis.is_finite() && self.z_axis.is_finite()
    }
}

/// The inner product of two vectors, each component cut to 40 binary
/// places: a fixed-point number with 80 places.
pub open spec fn dot(a: Vec3, b: Vec3) -> int {
    a.x.cut() * b.x.cut() + a.y.cut() * b.y.cut() + a.z.cut() * b.z.cut()
}

/// Two fixed-point numbers with 80 places differ by no more than 0.00001.
pub open spec fn near(value: int, target: int) -> bool {
    (value - target) * PARTS <= UNIT && (target - value) * PARTS <= UNIT
}

/// The number itself, or zero in place of a negative number.
pub open spec fn clamped(s: Scalar) -> Scalar {
    if s.negative() {
        Scalar { bits: 0 }
    } else {
        s
    }
}

/// How many of the three numbers are negative.
pub open spec fn negative_count(v: Vec3) -> nat {
    (if v.x.negative() {
        1nat
    } else {
        0nat
    }) + (if v.y.negative() {
        1nat
    } else {
        0nat
    }) + (if v.z.negative() {
        1nat
    } else {
        0nat
    })
}

impl EigenSolution {
    /// A solution that can be used: all its numbers finite, its
    /// eigenvectors orthonormal within the tolerance and not in one plane.
    pub open spec fn acceptable(self) -> bool {
        self.values.finite() && self.vectors.finite() && self.vectors.orthonormal() && !(
        self.vectors.handedness() is Flat)
    }

    /// The eigenvectors as a right-handed basis: where they are
    /// left-handed the third one is turned round.
    pub open spec fn proper_axes(self) -> Basis3 {
        if self.vectors.handedness() is Left {
            self.vectors.mirrored()
        } else {
            self.vectors
        }
    }

    /// The eigenvalues, with zero in place of each negative one.
    pub open spec fn moments(self) -> Vec3 {
        Vec3 { x: clamped(self.values.x), y: clamped(self.values.y), z: clamped(self.values.z) }
    }
}

/// Whether a tensor, a centre of mass and a mass can be diagonalized at
/// all: the tensor is not zero and all ten numbers are finite.
pub open spec fn decomposable(tensor: SymmetricTensor, center_of_mass: Vec3, mass: Scalar) -> bool {
    !tensor.zero() && tensor.finite() && center_of_mass.finite() && mass.finite()
}

/// The mass properties that an acceptable solution gives.
pub open spec fn principal(center_of_mass: Vec3, mass: Scalar, solution: EigenSolution)
    -> MassProperties {
    MassProperties {
        mass,
        local_center_of_mass: center_of_mass,
        principal_inertia: solution.moments(),
        principal_axes: solution.proper_axes(),
        clamped_moments: negative_count(solution.values) as u8,
    }
}

impl MassProperties {
    /// All numbers finite, no moment negative, the axes orthonormal
    /// within the tolerance and right-handed.
    pub open spec fn wf(self) -> bool {
        &&& self.mass.finite()
        &&& self.local_center_of_mass.finite()
        &&& self.principal_inertia.finite()
        &&& self.principal_axes.finite()
        &&& self.principal_axes.orthonormal()
        &&& self.principal_axes.handedness() is Right
        &&& !self.principal_inertia.x.negative()
        &&& !self.principal_inertia.y.negative()
        &&& !self.principal_inertia.z.negative()
        &&& self.clamped_moments <= 3
    }
}

/// The inner product of two vectors as a fixed-point number.
fn dot_fixed(a: &Vec3, b: &Vec3) -> (d: i128)
    requires
        a.bounded(),
        b.bounded(),
    ensures
        d == dot(*a, *b),
        -3 * (FIXED_BOUND * FIXED_BOUND) <= d <= 3 * (FIXED_BOUND * FIXED_BOUND),
{
    let ax: i128 = a.x.fixed() as i128;
    let ay: i128 = a.y.fixed() as i128;
    let az: i128 = a.z.fixed() as i128;
    let bx: i128 = b.x.fixed() as i128;
    let by: i128 = b.y.fixed() as i128;
    let bz: i128 = b.z.fixed() as i128;
    proof {
        lemma_product_bound(ax as int, bx as int, FIXED_BOUND as int, FIXED_BOUND as int);
        lemma_product_bound(ay as int, by as int, FIXED_BOUND as int, FIXED_BOUND as int);
        lemma_product_bound(az as int, bz as int, FIXED_BOUND as int, FIXED_BOUND as int);
    }
    ax * bx + ay * by + az * bz
}

/// The product of two bounded numbers is bounded by the product of the
/// bounds.
proof fn lemma_product_bound(a: int, b: int, m: int, n: int)
    requires
        -m <= a <= m,
        -n <= b <= n,
    ensures
        -(m * n) <= a * b <= m * n,
{
    assert(-(m * n) <= a * b <= m * n) by (nonlinear_arith)
        requires
            -m <= a <= m,
            -n <= b <= n,
    ;
}

/// Whether a fixed-point number with 80 places is within the tolerance of
/// a target.
fn is_near(value: i128, target: i128) -> (r: bool)
    requires
        -3 * (FIXED_BOUND * FIXED_BOUND) <= value <= 3 * (FIXED_BOUND * FIXED_BOUND),
        target == 0 || target == UNIT,
    ensures
        r == near(value as int, target as int),
{
    (value - target) * PARTS <= UNIT && (target - value) * PARTS <= UNIT
}

/// A vector with a component beyond two is far from a unit vector.
proof fn lemma_unbounded_is_long(v: Vec3)
    requires
        !v.bounded(),
    ensures
        !near(dot(v, v), UNIT as int),
{
    let x = v.x.cut();
    let y = v.y.cut();
    let z = v.z.cut();
    if !v.x.bounded() {
        v.x.lemma_cut_beyond_bound();
    }
    if !v.y.bounded() {
        v.y.lemma_cut_beyond_bound();
    }
    if !v.z.bounded() {
        v.z.lemma_cut_beyond_bound();
    }
    assert(x * x + y * y + z * z >= FIXED_BOUND * FIXED_BOUND) by (nonlinear_arith)
        requires
            x >= FIXED_BOUND || x <= -FIXED_BOUND || y >= FIXED_BOUND || y <= -FIXED_BOUND || z
                >= FIXED_BOUND || z <= -FIXED_BOUND,
    ;
}

/// Tests whether three vectors are orthonormal within the tolerance.
pub fn is_orthonormal(basis: &Basis3) -> (r: bool)
    ensures
        r == basis.orthonormal(),
        r ==> basis.bounded(),
{
    if !basis.x_axis.is_bounded() {
        proof {
            lemma_unbounded_is_long(basis.x_axis);
        }
        return false;
    }
    if !basis.y_axis.is_bounded() {
        proof {
            lemma_unbounded_is_long(basis.y_axis);
        }
        return false;
    }
    if !basis.z_axis.is_bounded() {
        proof {
            lemma_unbounded_is_long(basis.z_axis);
        }
        return false;
    }
    is_near(dot_fixed(&basis.x_axis, &basis.x_axis), UNIT) && is_near(
        dot_fixed(&basis.y_axis, &basis.y_axis),
        UNIT,
    ) && is_near(dot_fixed(&basis.z_axis, &basis.z_axis), UNIT) && is_near(
        dot_fixed(&basis.x_axis, &basis.y_axis),
        0,
    ) && is_near(dot_fixed(&basis.x_axis, &basis.z_axis), 0) && is_near(
        dot_fixed(&basis.y_axis, &basis.z_axis),
        0,
    )
}

/// Finds which way three vectors turn, none of them beyond two in a
/// component.
pub fn handedness(basis: &Basis3) -> (r: Handedness)
    requires
        basis.bounded(),
    ensures
        r == basis.handedness(),
{
    let ax: i128 = basis.x_axis.x.fixed() as i128;
    let ay: i128 = basis.x_axis.y.fixed() as i128;
    let az: i128 = basis.x_axis.z.fixed() as i128;
    let bx: i128 = basis.y_axis.x.fixed() as i128;
    let by: i128 = basis.y_axis.y.fixed() as i128;
    let bz: i128 = basis.y_axis.z.fixed() as i128;
    let cx: i128 = basis.z_axis.x.fixed() as i128;
    let cy: i128 = basis.z_axis.y.fixed() as i128;
    let cz: i128 = basis.z_axis.z.fixed() as i128;
    let ghost m = FIXED_BOUND as int;
    proof {
        lemma_product_bound(by as int, cz as int, m, m);
        lemma_product_bound(cy as int, bz as int, m, m);
        lemma_product_bound(ay as int, cz as int, m, m);
        lemma_product_bound(cy as int, az as int, m, m);
        lemma_product_bound(ay as int, bz as int, m, m);
        lemma_product_bound(by as int, az as int, m, m);
    }
    let minor_a: i128 = by * cz - cy * bz;
    let minor_b: i128 = ay * cz - cy * az;
    let minor_c: i128 = ay * bz - by * az;
    proof {
        lemma_product_bound(ax as int, minor_a as int, m, 2 * (m * m));
        lemma_product_bound(bx as int, minor_b as int, m, 2 * (m * m));
        lemma_product_bound(cx as int, minor_c as int, m, 2 * (m * m));
        assert(m * (2 * (m * m)) == 0x1000_0000_0000_0000_0000_0000_0000_0000) by (nonlinear_arith)
            requires
                m == 0x200_0000_0000,
        ;
    }
    let determinant: i128 = ax * minor_a - bx * minor_b + cx * minor_c;
    if determinant > 0 {
        Handedness::Right
    } else if determinant < 0 {
        Handedness::Left
    } else {
        Handedness::Flat
    }
}

/// Turning the third vector round keeps a basis orthonormal and changes
/// the sign of its determinant.
pub proof fn lemma_mirrored(basis: Basis3)
    ensures
        basis.mirrored().orthonormal() == basis.orthonormal(),
        basis.mirrored().determinant() == -basis.determinant(),
        basis.mirrored().finite() == basis.finite(),
{
    let a = basis.x_axis;
    let b = basis.y_axis;
    let c = basis.z_axis;
    let n = basis.mirrored().z_axis;
    assert(n.x.cut() == -c.x.cut() && n.y.cut() == -c.y.cut() && n.z.cut() == -c.z.cut());
    assert(dot(n, n) == dot(c, c)) by (nonlinear_arith)
        requires
            n.x.cut() == -c.x.cut(),
            n.y.cut() == -c.y.cut(),
            n.z.cut() == -c.z.cut(),
            dot(n, n) == n.x.cut() * n.x.cut() + n.y.cut() * n.y.cut() + n.z.cut() * n.z.cut(),
            dot(c, c) == c.x.cut() * c.x.cut() + c.y.cut() * c.y.cut() + c.z.cut() * c.z.cut(),
    ;
    assert(dot(a, n) == -dot(a, c)) by (nonlinear_arith)
        requires
            n.x.cut() == -c.x.cut(),
            n.y.cut() == -c.y.cut(),
            n.z.cut() == -c.z.cut(),
            dot(a, n) == a.x.cut() * n.x.cut() + a.y.cut() * n.y.cut() + a.z.cut() * n.z.cut(),
            dot(a, c) == a.x.cut() * c.x.cut() + a.y.cut() * c.y.cut() + a.z.cut() * c.z.cut(),
    ;
    assert(dot(b, n) == -dot(b, c)) by (nonlinear_arith)
        requires
            n.x.cut() == -c.x.cut(),
            n.y.cut() == -c.y.cut(),
            n.z.cut() == -c.z.cut(),
            dot(b, n) == b.x.cut() * n.x.cut() + b.y.cut() * n.y.cut() + b.z.cut() * n.z.cut(),
            dot(b, c) == b.x.cut() * c.x.cut() + b.y.cut() * c.y.cut() + b.z.cut() * c.z.cut(),
    ;
    let (ax, ay, az) = (a.x.cut(), a.y.cut(), a.z.cut());
    let (bx, by, bz) = (b.x.cut(), b.y.cut(), b.z.cut());
    let (cx, cy, cz) = (c.x.cut(), c.y.cut(), c.z.cut());
    assert(ax * (by * (-cz) - (-cy) * bz) - bx * (ay * (-cz) - (-cy) * az) + (-cx) * (ay * bz - by
        * az) == -(ax * (by * cz - cy * bz) - bx * (ay * cz - cy * az) + cx * (ay * bz - by * az)))
        by (nonlinear_arith);
}

fn clamp(s: Scalar) -> (r: Scalar)
    ensures
        r == clamped(s),
        s.finite() ==> r.finite(),
        !r.negative(),
{
    if s.is_negative() {
        Scalar { bits: 0 }
    } else {
        s
    }
}

/// Whether the caller has to run its eigen-solver on this tensor: it is not
/// zero and every number is finite. A solver need not terminate on a
/// tensor that is not finite.
pub fn needs_decomposition(tensor: &SymmetricTensor, center_of_mass: &Vec3, mass: Scalar) -> (r:
    bool)
    ensures
        r == decomposable(*tensor, *center_of_mass, mass),
{
    !tensor.is_zero() && tensor.is_finite() && center_of_mass.is_finite() && mass.is_finite()
}

/// Whether a solution can be used.
pub fn is_acceptable(solution: &EigenSolution) -> (r: bool)
    ensures
        r == solution.acceptable(),
        r ==> solution.vectors.bounded(),
{
    if !(solution.values.is_finite() && solution.vectors.is_finite() && is_orthonormal(
        &solution.vectors,
    )) {
        return false;
    }
    match handedness(&solution.vectors) {
        Handedness::Flat => false,
        _ => true,
    }
}

/// The mass properties of the link `link` from its inertia tensor and the
/// solution that an eigen-solver gave for it.
///
/// The zero tensor gives no mass properties, whatever else is passed. Any
/// other tensor needs finite inputs and an acceptable solution; without
/// them the tensor is refused. The eigenvectors come back as a
/// right-handed basis, the third turned round where they were left-handed,
/// and the eigenvalues with zero in place of each negative one, in the
/// solver's order.
pub fn diagonalize(
    link: &String,
    tensor: &SymmetricTensor,
    center_of_mass: &Vec3,
    mass: Scalar,
    solution: Option<EigenSolution>,
) -> (r: Result<Option<MassProperties>, Error>)
    ensures
        tensor.zero() ==> r matches Ok(None),
        !tensor.zero() && !(decomposable(*tensor, *center_of_mass, mass) && solution.is_some()
            && solution.unwrap().acceptable()) ==> (r matches Err(Error::InvalidInertiaTensor(n))
            && n@ == link@),
        decomposable(*tensor, *center_of_mass, mass) && solution.is_some()
            && solution.unwrap().acceptable() ==> (r matches Ok(Some(p)) && p == principal(
            *center_of_mass,
            mass,
            solution.unwrap(),
        ) && p.wf()),
{
    if tensor.is_zero() {
        return Ok(None);
    }
    if !needs_decomposition(tensor, center_of_mass, mass) {
        return Err(Error::InvalidInertiaTensor(link.clone()));
    }
    match solution {
        None => Err(Error::InvalidInertiaTensor(link.clone())),
        Some(s) => {
            if !is_acceptable(&s) {
                return Err(Error::InvalidInertiaTensor(link.clone()));
            }
            proof {
                lemma_mirrored(s.vectors);
            }
            let left = match handedness(&s.vectors) {
                Handedness::Left => true,
                _ => false,
            };
            let principal_axes = if left {
                Basis3 {
                    x_axis: s.vectors.x_axis,
                    y_axis: s.vectors.y_axis,
                    z_axis: s.vectors.z_axis.negated(),
                }
            } else {
                s.vectors
            };
            let mut clamped_moments: u8 = 0;
            if s.values.x.is_negative() {
                clamped_moments += 1;
            }
            if s.values.y.is_negative() {
                clamped_moments += 1;
            }
            if s.values.z.is_negative() {
                clamped_moments += 1;
            }
            let principal_inertia = Vec3 {
                x: clamp(s.values.x),
                y: clamp(s.values.y),
                z: clamp(s.values.z),
            };
            Ok(
                Some(
                    MassProperties {
                        mass,
                        local_center_of_mass: *center_of_mass,
                        principal_inertia,
                        principal_axes,
                        clamped_moments,
                    },
                ),
            )
        },
    }
}

} // verus!
