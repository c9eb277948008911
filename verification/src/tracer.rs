//! The path of one sample through the scene: cast, hit, scatter, and again,
//! until the path leaves the scene, is swallowed, or has bounced too often.

use vstd::prelude::*;
use crate::hitable::RayHit;
use crate::material::MaterialHit;
use crate::ray::Ray;
use crate::scalar::{Scalar, INFINITY_BITS};
use crate::vec3::Vec3;

verus! {

/// The number of bounces after which a path is cut off. The cut is deliberate:
/// it gives up a little light for the certainty that every path ends.
pub const DEPTH_LIMIT: i32 = 50;

/// The encoding of the smallest ray parameter at which a hit counts, one
/// ten-thousandth: a ray must not hit the surface it starts on.
pub const NEAREST_BITS: u32 = 0x38d1_b717;

/// Where a path stands.
#[derive(Clone, Copy, Debug, PartialEq, Eq, Structural)]
pub enum Trace {
    /// The scene is to be searched for the closest hit of `ray`.
    Cast { ray: Ray, depth: i32 },
    /// The material at `hit` is to be asked what becomes of `ray`.
    Scatter { ray: Ray, hit: RayHit, depth: i32 },
    /// The path has left the scene in `direction` and sees the sky there.
    Sky { direction: Vec3 },
    /// The path has ended without light.
    Black,
}

impl Trace {
    /// Whether the path has ended.
    pub open spec fn finished(self) -> bool {
        self is Sky || self is Black
    }

    /// An upper limit on the steps that a path can still take.
    pub open spec fn remaining(self) -> nat {
        match self {
            Trace::Cast { ray, depth } => if depth < DEPTH_LIMIT {
                (2 * (DEPTH_LIMIT - depth) + 1) as nat
            } else {
                1
            },
            Trace::Scatter { ray, hit, depth } => if depth < DEPTH_LIMIT {
                (2 * (DEPTH_LIMIT - depth)) as nat
            } else {
                1
            },
            Trace::Sky { direction } => 0,
            Trace::Black => 0,
        }
    }

    /// The path after the scene reported `found` for the ray that was cast:
    /// without a hit it sees the sky; with one it asks the material, unless
    /// it has bounced as often as allowed and ends without light. A path that
    /// is not at a cast stays as it is.
    pub open spec fn on_hit_spec(self, found: Option<RayHit>) -> Trace {
        match self {
            Trace::Cast { ray, depth } => match found {
                None => Trace::Sky { direction: ray.direction },
                Some(hit) => if depth < DEPTH_LIMIT {
                    Trace::Scatter { ray, hit, depth }
                } else {
                    Trace::Black
                },
            },
            _ => self,
        }
    }

    /// The path after the material reported `scattered`: it goes on with the
    /// scattered ray, one bounce deeper, or ends without light where the ray
    /// was swallowed. A path that is not at a scatter stays as it is.
    pub open spec fn on_scatter_spec(self, scattered: Option<MaterialHit>) -> Trace {
        match self {
            Trace::Scatter { ray, hit, depth } => match scattered {
                Some(outcome) => if depth < DEPTH_LIMIT {
                    Trace::Cast { ray: outcome.scatter_ray, depth: (depth + 1) as i32 }
                } else {
                    Trace::Black
                },
                None => Trace::Black,
            },
            _ => self,
        }
    }

    /// The path of a ray fresh from the camera.
    pub fn start(ray: Ray) -> (r: Trace)
        ensures
            r == (Trace::Cast { ray, depth: 0 }),
    {
        Trace::Cast { ray, depth: 0 }
    }

    /// The limits between which the scene is searched for a hit: from just
    /// off the surface to infinity.
    pub fn limits() -> (r: (Scalar, Scalar))
        ensures
            r.0.bits == NEAREST_BITS,
            r.1.bits == INFINITY_BITS,
    {
        (Scalar::from_bits(NEAREST_BITS), Scalar::infinity())
    }

    /// Takes in what the scene reported for the ray that was cast.
    pub fn on_hit(self, found: Option<RayHit>) -> (r: Trace)
        ensures
            r == self.on_hit_spec(found),
            self is Cast ==> r.remaining() < self.remaining(),
            self is Cast && found is None ==> r is Sky,
    {
        match self {
            Trace::Cast { ray, depth } => match found {
                None => Trace::Sky { direction: ray.direction },
                Some(hit) => {
                    if depth < DEPTH_LIMIT {
                        Trace::Scatter { ray, hit, depth }
                    } else {
                        Trace::Black
                    }
                },
            },
            _ => self,
        }
    }

    /// Takes in what the material reported for the ray that hit it. Where the
    /// path goes on, the light that it brings back is to be multiplied,
    /// channel by channel, by the attenuation that the material reported.
    pub fn on_scatter(self, scattered: Option<MaterialHit>) -> (r: Trace)
        ensures
            r == self.on_scatter_spec(scattered),
            self is Scatter ==> r.remaining() < self.remaining(),
    {
        match self {
            Trace::Scatter { ray, hit, depth } => match scattered {
                Some(outcome) => {
                    if depth < DEPTH_LIMIT {
                        Trace::Cast { ray: outcome.scatter_ray, depth: depth + 1 }
                    } else {
                        Trace::Black
                    }
                },
                None => Trace::Black,
            },
            _ => self,
        }
    }

    /// Whether the path has ended.
    pub fn is_finished(&self) -> (r: bool)
        ensures
            r == self.finished(),
    {
        match self {
            Trace::Sky { .. } => true,
            Trace::Black => true,
            _ => false,
        }
    }
}

/// The path that a sequence of reports leads to, each taken in by the step
/// that the path is at.
pub open spec fn follow(trace: Trace, reports: Seq<(Option<RayHit>, Option<MaterialHit>)>) -> Trace
    decreases reports.len(),
{
    if reports.len() == 0 {
        trace
    } else {
        let next = match trace {
            Trace::Cast { .. } => trace.on_hit_spec(reports[0].0),
            _ => trace.on_scatter_spec(reports[0].1),
        };
        follow(next, reports.drop_first())
    }
}

/// A ray that hits nothing sees the sky in its own direction, however deep
/// the path is, and no material is asked.
pub proof fn lemma_miss_sees_sky(ray: Ray, depth: i32)
    ensures
        (Trace::Cast { ray, depth }).on_hit_spec(None) == (Trace::Sky { direction: ray.direction }),
{
}

/// A path that has bounced as often as allowed ends without light at its
/// next hit.
pub proof fn lemma_depth_limit_ends_black(ray: Ray, hit: RayHit, depth: i32)
    requires
        depth >= DEPTH_LIMIT,
    ensures
        (Trace::Cast { ray, depth }).on_hit_spec(Some(hit)) == Trace::Black,
{
}

/// A path fresh from the camera can take a hundred and one steps at most:
/// fifty bounces of a cast and a scatter each, and one last cast.
pub proof fn lemma_fresh_path_is_short(ray: Ray)
    ensures
        (Trace::Cast { ray, depth: 0 }).remaining() == 2 * DEPTH_LIMIT + 1,
{
}

/// Whatever the scene and the materials report, a path has ended once it has
/// taken in as many reports as it had steps remaining, and stays ended.
pub proof fn lemma_every_path_ends(
    trace: Trace,
    reports: Seq<(Option<RayHit>, Option<MaterialHit>)>,
)
    requires
        reports.len() >= trace.remaining(),
    ensures
        follow(trace, reports).finished(),
    decreases reports.len(),
{
    if reports.len() == 0 {
    } else {
        let next = match trace {
            Trace::Cast { .. } => trace.on_hit_spec(reports[0].0),
            _ => trace.on_scatter_spec(reports[0].1),
        };
        assert(next.remaining() < trace.remaining() || (trace.finished() && next == trace));
        lemma_every_path_ends(next, reports.drop_first());
    }
}

} // verus!
