//! Spheres, still and moving: which root of the ray's quadratic is the hit.

use vstd::prelude::*;
use crate::hitable::RayHit;
use crate::scalar::Scalar;
use crate::vec3::Vec3;

verus! {

/// One place at which a ray's line meets a sphere: the ray parameter, the
/// point, and the unit normal there.
#[derive(Clone, Copy, Debug, PartialEq, Eq, Structural)]
pub struct Crossing {
    pub distance: Scalar,
    pub point: Vec3,
    pub normal: Vec3,
}

/// The solved quadratic of a ray and a sphere: its discriminant, and the
/// crossings at its smaller and at its larger root.
#[derive(Clone, Copy, Debug, PartialEq, Eq, Structural)]
pub struct Roots {
    pub discriminant: Scalar,
    pub near: Crossing,
    pub far: Crossing,
}

/// A sphere at rest.
#[derive(Clone, Copy, Debug, PartialEq, Eq, Structural)]
pub struct Sphere {
    pub centre: Vec3,
    pub radius: Scalar,
    pub material: usize,
}

/// A sphere whose centre moves on a straight line, from `centre0` at `time0`
/// to `centre1` at `time1`, and on beyond either end.
#[derive(Clone, Copy, Debug, PartialEq, Eq, Structural)]
pub struct MovingSphere {
    pub centre0: Vec3,
    pub centre1: Vec3,
    pub time0: Scalar,
    pub time1: Scalar,
    pub radius: Scalar,
    pub material: usize,
}

/// Whether a ray parameter lies strictly between the two limits.
pub open spec fn within(distance: Scalar, t_min: Scalar, t_max: Scalar) -> bool {
    distance.lt_spec(t_max) && t_min.lt_spec(distance)
}

/// The crossing that counts as the hit: none unless the discriminant is
/// above zero; then the nearer crossing where it lies strictly inside the
/// limits, else the farther one where that does.
pub open spec fn accepted(roots: Roots, t_min: Scalar, t_max: Scalar) -> Option<Crossing> {
    if !(Scalar { bits: 0 }).lt_spec(roots.discriminant) {
        None
    } else if within(roots.near.distance, t_min, t_max) {
        Some(roots.near)
    } else if within(roots.far.distance, t_min, t_max) {
        Some(roots.far)
    } else {
        None
    }
}

/// The hit that a surface of the given material reports for a crossing.
pub open spec fn report(crossing: Option<Crossing>, material: usize) -> Option<RayHit> {
    match crossing {
        Some(c) => Some(
            RayHit { distance: c.distance, point: c.point, normal: c.normal, material },
        ),
        None => None,
    }
}

/// Picks the crossing that counts as the hit.
pub fn accept(roots: &Roots, t_min: Scalar, t_max: Scalar) -> (r: Option<Crossing>)
    ensures
        r == accepted(*roots, t_min, t_max),
{
    if roots.discriminant.gt(Scalar::zero()) {
        if roots.near.distance.lt(t_max) && roots.near.distance.gt(t_min) {
            return Some(roots.near);
        }
        if roots.far.distance.lt(t_max) && roots.far.distance.gt(t_min) {
            return Some(roots.far);
        }
    }
    None
}

impl Sphere {
    pub fn new(centre: Vec3, radius: Scalar, material: usize) -> (r: Sphere)
        ensures
            r == (Sphere { centre, radius, material }),
    {
        Sphere { centre, radius, material }
    }

    /// The hit of a ray on the sphere between the limits, from the solved
    /// quadratic of the two.
    pub fn hit(&self, roots: &Roots, t_min: Scalar, t_max: Scalar) -> (r: Option<RayHit>)
        ensures
            r == report(accepted(*roots, t_min, t_max), self.material),
    {
        match accept(roots, t_min, t_max) {
            Some(c) => Some(
                RayHit {
                    distance: c.distance,
                    point: c.point,
                    normal: c.normal,
                    material: self.material,
                },
            ),
            None => None,
        }
    }
}

impl MovingSphere {
    pub fn new(
        centre0: Vec3,
        centre1: Vec3,
        time0: Scalar,
        time1: Scalar,
        radius: Scalar,
        material: usize,
    ) -> (r: MovingSphere)
        ensures
            r == (MovingSphere { centre0, centre1, time0, time1, radius, material }),
    {
        MovingSphere { centre0, centre1, time0, time1, radius, material }
    }

    /// The hit of a ray on the sphere where it stands at the ray's instant,
    /// between the limits, from the solved quadratic of the two.
    pub fn hit(&self, roots: &Roots, t_min: Scalar, t_max: Scalar) -> (r: Option<RayHit>)
        ensures
            r == report(accepted(*roots, t_min, t_max), self.material),
    {
        match accept(roots, t_min, t_max) {
            Some(c) => Some(
                RayHit {
                    distance: c.distance,
                    point: c.point,
                    normal: c.normal,
                    material: self.material,
                },
            ),
            None => None,
        }
    }
}

/// A reported hit lies strictly inside the limits, at a distance that is a
/// number.
pub proof fn lemma_accepted_within(roots: Roots, t_min: Scalar, t_max: Scalar)
    ensures
        accepted(roots, t_min, t_max) is Some ==> within(
            accepted(roots, t_min, t_max)->0.distance,
            t_min,
            t_max,
        ) && !accepted(roots, t_min, t_max)->0.distance.nan(),
{
}

/// Whether the crossing at the smaller root is at most as far as the one at
/// the larger, where the quadratic has two roots.
pub open spec fn ordered(roots: Roots) -> bool {
    (Scalar { bits: 0 }).lt_spec(roots.discriminant) ==> roots.near.distance.le_spec(
        roots.far.distance,
    )
}

/// Where the smaller root is at most the larger, lowering the upper limit
/// keeps the hit if the hit is under the new limit, and leaves none if not.
pub proof fn lemma_accepted_window(roots: Roots, t_min: Scalar, t_max: Scalar, lower: Scalar)
    requires
        lower.le_spec(t_max),
        ordered(roots),
    ensures
        accepted(roots, t_min, lower) == (if accepted(roots, t_min, t_max) is Some && accepted(
            roots,
            t_min,
            t_max,
        )->0.distance.lt_spec(lower) {
            accepted(roots, t_min, t_max)
        } else {
            None
        }),
{
}

} // verus!
