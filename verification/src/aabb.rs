//! Axis-aligned bounding boxes: their union, and the slab test that decides
//! whether a ray crosses one.

use vstd::prelude::*;
use crate::scalar::Scalar;
use crate::vec3::Vec3;

verus! {

/// A box with faces parallel to the axes, given by its smallest and its
/// largest corner.
#[derive(Clone, Copy, Debug, PartialEq, Eq, Structural)]
pub struct AABB {
    pub min: Vec3,
    pub max: Vec3,
}

/// What a ray does on one axis of a box: the reciprocal of its direction on
/// that axis, and the ray parameters at which it meets the plane of the
/// smallest and of the largest corner.
#[derive(Clone, Copy, Debug, PartialEq, Eq, Structural)]
pub struct Slab {
    pub inv_dir: Scalar,
    pub at_min: Scalar,
    pub at_max: Scalar,
}

/// A stretch of ray parameters, both ends excluded.
#[derive(Clone, Copy, Debug, PartialEq, Eq, Structural)]
pub struct Interval {
    pub low: Scalar,
    pub high: Scalar,
}

impl Interval {
    /// Whether no parameter lies inside: the high end is at most the low end.
    pub open spec fn empty(self) -> bool {
        self.high.le_spec(self.low)
    }
}

impl Slab {
    /// The parameter at which the ray enters the slab: the crossing of the
    /// smallest corner's plane, or of the largest where the ray runs backwards
    /// on this axis.
    pub open spec fn entry(self) -> Scalar {
        if self.inv_dir.lt_spec(Scalar { bits: 0 }) {
            self.at_max
        } else {
            self.at_min
        }
    }

    /// The parameter at which the ray leaves the slab.
    pub open spec fn exit(self) -> Scalar {
        if self.inv_dir.lt_spec(Scalar { bits: 0 }) {
            self.at_min
        } else {
            self.at_max
        }
    }

    /// The part of `interval` that lies inside the slab.
    pub open spec fn narrow_spec(self, interval: Interval) -> Interval {
        Interval {
            low: self.entry().max_spec(interval.low),
            high: self.exit().min_spec(interval.high),
        }
    }

    /// Cuts `interval` down to the part inside the slab.
    pub fn narrow(&self, interval: Interval) -> (r: Interval)
        ensures
            r == self.narrow_spec(interval),
    {
        if self.inv_dir.lt(Scalar::zero()) {
            Interval { low: self.at_max.max(interval.low), high: self.at_min.min(interval.high) }
        } else {
            Interval { low: self.at_min.max(interval.low), high: self.at_max.min(interval.high) }
        }
    }
}

/// Whether a ray with the given slabs on the x, y and z axis crosses the box
/// inside `interval`: the interval is cut down by one axis after the other,
/// and must not become empty at any of them.
pub open spec fn slabs_hit(x: Slab, y: Slab, z: Slab, interval: Interval) -> bool {
    let after_x = x.narrow_spec(interval);
    let after_y = y.narrow_spec(after_x);
    let after_z = z.narrow_spec(after_y);
    !after_x.empty() && !after_y.empty() && !after_z.empty()
}

impl AABB {
    /// Whether the smallest corner is at most the largest on every axis.
    pub open spec fn valid(self) -> bool {
        &&& self.min.x.le_spec(self.max.x)
        &&& self.min.y.le_spec(self.max.y)
        &&& self.min.z.le_spec(self.max.z)
    }

    /// Whether every coordinate of both corners is a number.
    pub open spec fn numeric(self) -> bool {
        self.min.numeric() && self.max.numeric()
    }

    /// Whether `inner` lies inside `self` on every axis.
    pub open spec fn contains(self, inner: AABB) -> bool {
        &&& self.min.x.le_spec(inner.min.x)
        &&& self.min.y.le_spec(inner.min.y)
        &&& self.min.z.le_spec(inner.min.z)
        &&& inner.max.x.le_spec(self.max.x)
        &&& inner.max.y.le_spec(self.max.y)
        &&& inner.max.z.le_spec(self.max.z)
    }

    /// The smallest box around two boxes: on each axis the smaller of the two
    /// smallest corners and the larger of the two largest.
    pub open spec fn union(self, other: AABB) -> AABB {
        AABB {
            min: Vec3 {
                x: self.min.x.min_spec(other.min.x),
                y: self.min.y.min_spec(other.min.y),
                z: self.min.z.min_spec(other.min.z),
            },
            max: Vec3 {
                x: self.max.x.max_spec(other.max.x),
                y: self.max.y.max_spec(other.max.y),
                z: self.max.z.max_spec(other.max.z),
            },
        }
    }

    pub fn new(min: Vec3, max: Vec3) -> (r: AABB)
        ensures
            r == (AABB { min, max }),
    {
        AABB { min, max }
    }

    /// Decides whether a ray crosses the box at a parameter strictly between
    /// `t_min` and `t_max`, from the ray's three slabs.
    pub fn hit(slabs: &[Slab; 3], t_min: Scalar, t_max: Scalar) -> (r: bool)
        ensures
            r == slabs_hit(slabs[0], slabs[1], slabs[2], Interval { low: t_min, high: t_max }),
    {
        let mut interval = Interval { low: t_min, high: t_max };
        let mut i: usize = 0;
        while i < 3
            invariant
                i <= 3,
                i == 0 ==> interval == (Interval { low: t_min, high: t_max }),
                i == 1 ==> interval == slabs[0].narrow_spec(Interval { low: t_min, high: t_max })
                    && !interval.empty(),
                i == 2 ==> interval == slabs[1].narrow_spec(
                    slabs[0].narrow_spec(Interval { low: t_min, high: t_max }),
                ) && !interval.empty() && !slabs[0].narrow_spec(
                    Interval { low: t_min, high: t_max },
                ).empty(),
                i == 3 ==> slabs_hit(
                    slabs[0],
                    slabs[1],
                    slabs[2],
                    Interval { low: t_min, high: t_max },
                ),
            decreases 3 - i,
        {
            interval = slabs[i].narrow(interval);
            if interval.high.le(interval.low) {
                return false;
            }
            i = i + 1;
        }
        true
    }

    /// The smallest box that holds both `box0` and `box1`.
    pub fn surrounding_box(box0: &AABB, box1: &AABB) -> (r: AABB)
        ensures
            r == box0.union(*box1),
    {
        let min = Vec3::new(
            box0.min.x().min(box1.min.x()),
            box0.min.y().min(box1.min.y()),
            box0.min.z().min(box1.min.z()),
        );
        let max = Vec3::new(
            box0.max.x().max(box1.max.x()),
            box0.max.y().max(box1.max.y()),
            box0.max.z().max(box1.max.z()),
        );
        AABB { min, max }
    }
}

/// The union of two boxes whose corners are numbers holds both, and lies
/// inside every box that holds both; the union of two valid boxes is valid.
pub proof fn lemma_union_is_tightest(a: AABB, b: AABB, outer: AABB)
    requires
        a.numeric(),
        b.numeric(),
    ensures
        a.union(b).numeric(),
        a.union(b).contains(a),
        a.union(b).contains(b),
        outer.contains(a) && outer.contains(b) ==> outer.contains(a.union(b)),
        a.valid() && b.valid() ==> a.union(b).valid(),
{
}

} // verus!
