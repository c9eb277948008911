//! Hits: what an intersection reports, and which of two hits is kept.

use vstd::prelude::*;
use crate::scalar::Scalar;
use crate::vec3::Vec3;

verus! {

/// One intersection of a ray with a surface: the ray parameter at which it
/// happens, the point, the surface normal there (of unit length, on either
/// side), and the place of the surface's material in the scene's materials.
#[derive(Clone, Copy, Debug, PartialEq, Eq, Structural)]
pub struct RayHit {
    pub distance: Scalar,
    pub point: Vec3,
    pub normal: Vec3,
    pub material: usize,
}

/// Whether a reported hit, if there is one, lies at a distance that is a
/// number.
pub open spec fn numeric(hit: Option<RayHit>) -> bool {
    hit is Some ==> !hit->0.distance.nan()
}

/// The hit to keep of the two that the halves of a scene report: the left one
/// only where it is strictly closer than the right one.
pub open spec fn closer_spec(left: Option<RayHit>, right: Option<RayHit>) -> Option<RayHit> {
    match (left, right) {
        (Some(l), Some(r)) => if l.distance.lt_spec(r.distance) {
            Some(l)
        } else {
            Some(r)
        },
        (None, Some(r)) => Some(r),
        (Some(l), None) => Some(l),
        (None, None) => None,
    }
}

/// Picks the closer of two optional hits; on equal distances the right one.
pub fn closer(left: Option<RayHit>, right: Option<RayHit>) -> (r: Option<RayHit>)
    ensures
        r == closer_spec(left, right),
{
    match (left, right) {
        (Some(l), Some(r)) => {
            if l.distance.lt(r.distance) {
                Some(l)
            } else {
                Some(r)
            }
        },
        (None, Some(r)) => Some(r),
        (Some(l), None) => Some(l),
        (None, None) => None,
    }
}

/// Among hits at numeric distances it does not matter how three of them are
/// grouped, and the kept hit is one of the two, at most as far as either.
pub proof fn lemma_closer_laws(a: Option<RayHit>, b: Option<RayHit>, c: Option<RayHit>)
    requires
        numeric(a),
        numeric(b),
        numeric(c),
    ensures
        closer_spec(closer_spec(a, b), c) == closer_spec(a, closer_spec(b, c)),
        numeric(closer_spec(a, b)),
        closer_spec(a, b) == a || closer_spec(a, b) == b,
        closer_spec(a, b) is None <==> a is None && b is None,
        a is Some ==> closer_spec(a, b)->0.distance.le_spec(a->0.distance),
        b is Some ==> closer_spec(a, b)->0.distance.le_spec(b->0.distance),
        closer_spec(None, a) == a,
        closer_spec(a, None) == a,
{
}

} // verus!
