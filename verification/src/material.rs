//! Materials: whether a ray that hits a surface goes on, in which direction,
//! and how much of its light is kept.

use vstd::prelude::*;
use crate::hitable::RayHit;
use crate::ray::Ray;
use crate::scalar::{Scalar, ONE_BITS};
use crate::vec3::Vec3;

verus! {

/// What a surface makes of a ray: the share of light kept on each colour
/// channel, and the ray that goes on.
#[derive(Clone, Copy, Debug, PartialEq, Eq, Structural)]
pub struct MaterialHit {
    pub attenuation: Vec3,
    pub scatter_ray: Ray,
}

/// A matt surface, which sends light on in every direction.
#[derive(Clone, Copy, Debug, PartialEq, Eq, Structural)]
pub struct Diffuse {
    pub albedo: Vec3,
}

/// A mirroring surface. The larger `fuzz`, between zero and one, the more the
/// mirrored direction is blurred.
#[derive(Clone, Copy, Debug, PartialEq, Eq, Structural)]
pub struct Metal {
    pub albedo: Vec3,
    pub fuzz: Scalar,
}

/// A clear surface such as glass, which mirrors part of the light and bends
/// the rest.
#[derive(Clone, Copy, Debug, PartialEq, Eq, Structural)]
pub struct Dielectric {
    pub refractive_index: Scalar,
}

/// The side from which a ray meets a clear surface: the normal that points
/// against the ray, the ratio of the refractive indices it passes, and the
/// cosine that the reflectance is computed from.
#[derive(Clone, Copy, Debug, PartialEq, Eq, Structural)]
pub struct Interface {
    pub outward_normal: Vec3,
    pub ni_over_nt: Scalar,
    pub cosine: Scalar,
}

/// What belongs to one side of a clear surface: the ratio of the refractive
/// indices for a ray that comes from that side, and the cosine for it.
#[derive(Clone, Copy, Debug, PartialEq, Eq, Structural)]
pub struct Side {
    pub ni_over_nt: Scalar,
    pub cosine: Scalar,
}

/// What a ray can do at a clear surface: its mirrored direction; the
/// discriminant of the law of refraction, with the bent direction, which
/// means something only where the discriminant is above zero; and the share
/// of light that is mirrored where bending is possible.
#[derive(Clone, Copy, Debug, PartialEq, Eq, Structural)]
pub struct Bend {
    pub reflected: Vec3,
    pub discriminant: Scalar,
    pub refracted: Vec3,
    pub reflectance: Scalar,
}

/// The ray that leaves a hit in a direction, at the instant of the ray that
/// came in.
pub open spec fn onward(in_ray: Ray, hit: RayHit, direction: Vec3) -> Ray {
    Ray { origin: hit.point, direction, time: in_ray.time }
}

/// The colour that keeps all light.
pub open spec fn white() -> Vec3 {
    Vec3 { x: Scalar { bits: ONE_BITS }, y: Scalar { bits: ONE_BITS }, z: Scalar { bits: ONE_BITS } }
}

/// The triple of three zeros.
pub open spec fn origin() -> Vec3 {
    Vec3 { x: Scalar { bits: 0 }, y: Scalar { bits: 0 }, z: Scalar { bits: 0 } }
}

impl Bend {
    /// The bent direction, where the law of refraction has a solution.
    pub open spec fn refraction(self) -> Option<Vec3> {
        if (Scalar { bits: 0 }).lt_spec(self.discriminant) {
            Some(self.refracted)
        } else {
            None
        }
    }

    /// The chance that the ray is mirrored: the reflectance where it can be
    /// bent, and one where it cannot.
    pub open spec fn reflection_chance(self) -> Scalar {
        if self.refraction() is Some {
            self.reflectance
        } else {
            Scalar { bits: ONE_BITS }
        }
    }

    /// The direction in which the ray goes on for a sample drawn between zero
    /// and one: mirrored where the sample is below the chance of reflection,
    /// bent otherwise.
    pub open spec fn direction(self, sample: Scalar) -> Vec3 {
        if sample.lt_spec(self.reflection_chance()) {
            self.reflected
        } else {
            match self.refraction() {
                Some(bent) => bent,
                None => origin(),
            }
        }
    }

    /// Decides whether the ray can be bent at all.
    pub fn refract(&self) -> (r: Option<Vec3>)
        ensures
            r == self.refraction(),
    {
        if self.discriminant.gt(Scalar::zero()) {
            Some(self.refracted)
        } else {
            None
        }
    }
}

impl Diffuse {
    pub fn new(albedo: Vec3) -> (r: Diffuse)
        ensures
            r.albedo == albedo,
    {
        Diffuse { albedo }
    }

    /// Sends the ray on from the hit towards `target`, the normal plus a
    /// random point of the unit sphere, keeping the albedo's share of light.
    /// A matt surface never swallows a ray.
    pub fn scatter(&self, in_ray: &Ray, hit: &RayHit, target: Vec3) -> (r: Option<MaterialHit>)
        ensures
            r == Some(
                MaterialHit { attenuation: self.albedo, scatter_ray: onward(*in_ray, *hit, target) },
            ),
    {
        Some(
            MaterialHit {
                attenuation: self.albedo,
                scatter_ray: Ray::new(hit.point, target, in_ray.time),
            },
        )
    }
}

impl Metal {
    /// A metal of the given colour; `fuzz` is limited to the interval from
    /// zero to one.
    pub fn new(albedo: Vec3, fuzz: Scalar) -> (r: Metal)
        ensures
            r.albedo == albedo,
            r.fuzz == fuzz.clamp_spec(Scalar { bits: 0 }, Scalar { bits: ONE_BITS }),
    {
        Metal { albedo, fuzz: fuzz.clamp(Scalar::zero(), Scalar::one()) }
    }

    /// Sends the ray on in `direction`, the blurred mirror direction, if that
    /// points away from the surface: `facing`, its dot product with the
    /// normal, must be above zero. Otherwise the ray is swallowed.
    pub fn scatter(&self, in_ray: &Ray, hit: &RayHit, direction: Vec3, facing: Scalar) -> (r:
        Option<MaterialHit>)
        ensures
            r == (if (Scalar { bits: 0 }).lt_spec(facing) {
                Some(
                    MaterialHit {
                        attenuation: self.albedo,
                        scatter_ray: onward(*in_ray, *hit, direction),
                    },
                )
            } else {
                None
            }),
    {
        if facing.gt(Scalar::zero()) {
            Some(
                MaterialHit {
                    attenuation: self.albedo,
                    scatter_ray: Ray::new(hit.point, direction, in_ray.time),
                },
            )
        } else {
            None
        }
    }
}

impl Dielectric {
    /// The side that a ray is on whose direction has the dot product `facing`
    /// with the normal: above zero, ray and normal point the same way, so the
    /// normal is turned round and the ratio and cosine of `along` hold; else
    /// the normal stays and those of `against` hold.
    pub open spec fn interface_spec(hit: RayHit, facing: Scalar, along: Side, against: Side) -> Interface {
        if (Scalar { bits: 0 }).lt_spec(facing) {
            Interface {
                outward_normal: hit.normal.neg_spec(),
                ni_over_nt: along.ni_over_nt,
                cosine: along.cosine,
            }
        } else {
            Interface {
                outward_normal: hit.normal,
                ni_over_nt: against.ni_over_nt,
                cosine: against.cosine,
            }
        }
    }

    pub fn new(refractive_index: Scalar) -> (r: Dielectric)
        ensures
            r.refractive_index == refractive_index,
    {
        Dielectric { refractive_index }
    }

    /// Decides from which side the ray meets the surface.
    pub fn interface(hit: &RayHit, facing: Scalar, along: Side, against: Side) -> (r: Interface)
        ensures
            r == Dielectric::interface_spec(*hit, facing, along, against),
    {
        if facing.gt(Scalar::zero()) {
            Interface {
                outward_normal: hit.normal.neg(),
                ni_over_nt: along.ni_over_nt,
                cosine: along.cosine,
            }
        } else {
            Interface {
                outward_normal: hit.normal,
                ni_over_nt: against.ni_over_nt,
                cosine: against.cosine,
            }
        }
    }

    /// Sends the ray on, mirrored or bent as `sample` decides, with all of
    /// its light. A clear surface never swallows a ray.
    pub fn scatter(&self, in_ray: &Ray, hit: &RayHit, bend: &Bend, sample: Scalar) -> (r: Option<
        MaterialHit,
    >)
        ensures
            r == Some(
                MaterialHit {
                    attenuation: white(),
                    scatter_ray: onward(*in_ray, *hit, bend.direction(sample)),
                },
            ),
    {
        let attenuation = Vec3::new(Scalar::one(), Scalar::one(), Scalar::one());
        let mut refraction_dir = Vec3::new(
            Scalar::zero(),
            Scalar::zero(),
            Scalar::zero(),
        );
        let reflected_prob = match bend.refract() {
            Some(refracted) => {
                refraction_dir = refracted;
                bend.reflectance
            },
            None => Scalar::one(),
        };
        let scatter_ray = if sample.lt(reflected_prob) {
            Ray::new(hit.point, bend.reflected, in_ray.time)
        } else {
            Ray::new(hit.point, refraction_dir, in_ray.time)
        };
        Some(MaterialHit { attenuation, scatter_ray })
    }
}

/// Beyond the critical angle, where the discriminant of the law of
/// refraction is not above zero, every sample below one sends the ray on
/// mirrored.
pub proof fn lemma_total_internal_reflection(
    glass: Dielectric,
    in_ray: Ray,
    hit: RayHit,
    bend: Bend,
    sample: Scalar,
)
    requires
        !(Scalar { bits: 0 }).lt_spec(bend.discriminant),
        sample.lt_spec(Scalar { bits: ONE_BITS }),
    ensures
        bend.refraction() is None,
        bend.reflection_chance() == (Scalar { bits: ONE_BITS }),
        bend.direction(sample) == bend.reflected,
{
}

/// Every ray that a material sends on starts at the hit and keeps the instant
/// of the ray that came in.
pub proof fn lemma_scatter_keeps_time(in_ray: Ray, hit: RayHit, direction: Vec3)
    ensures
        onward(in_ray, hit, direction).time == in_ray.time,
        onward(in_ray, hit, direction).origin == hit.point,
{
}

} // verus!
