//! Triples of numbers: points, directions and colours alike.

use vstd::prelude::*;
use crate::scalar::{Scalar, ONE_BITS};

verus! {

/// Three numbers, read as a point, a direction or a colour.
#[derive(Clone, Copy, Debug, PartialEq, Eq, Structural)]
pub struct Vec3 {
    pub x: Scalar,
    pub y: Scalar,
    pub z: Scalar,
}

impl Vec3 {
    /// The component on an axis: 0 is x, 1 is y, anything else is z.
    pub open spec fn axis(self, axis: int) -> Scalar {
        if axis == 0 {
            self.x
        } else if axis == 1 {
            self.y
        } else {
            self.z
        }
    }

    /// The triple with each sign flipped.
    pub open spec fn neg_spec(self) -> Vec3 {
        Vec3 { x: self.x.neg_spec(), y: self.y.neg_spec(), z: self.z.neg_spec() }
    }

    /// Whether no component is not a number.
    pub open spec fn numeric(self) -> bool {
        !self.x.nan() && !self.y.nan() && !self.z.nan()
    }

    /// Whether a candidate of the given squared length lies inside the unit
    /// sphere for the sampling by rejection: its squared length is not one or
    /// more.
    pub open spec fn inside_unit_sphere(length_squared: Scalar) -> bool {
        !(Scalar { bits: ONE_BITS }).le_spec(length_squared)
    }

    /// Decides whether the sampling of a point in the unit sphere keeps a
    /// candidate or draws again. A kept candidate never has a squared length
    /// of one or more.
    pub fn get_point_in_unit_sphere(candidate: Vec3, length_squared: Scalar) -> (r: Option<Vec3>)
        ensures
            r == (if Vec3::inside_unit_sphere(length_squared) {
                Some(candidate)
            } else {
                None
            }),
            r is Some ==> !(Scalar { bits: ONE_BITS }).le_spec(length_squared),
    {
        if length_squared.ge(Scalar::one()) {
            None
        } else {
            Some(candidate)
        }
    }

    pub fn new(val1: Scalar, val2: Scalar, val3: Scalar) -> (r: Vec3)
        ensures
            r == (Vec3 { x: val1, y: val2, z: val3 }),
    {
        Vec3 { x: val1, y: val2, z: val3 }
    }

    pub fn x(&self) -> (r: Scalar)
        ensures
            r == self.x,
    {
        self.x
    }

    pub fn y(&self) -> (r: Scalar)
        ensures
            r == self.y,
    {
        self.y
    }

    pub fn z(&self) -> (r: Scalar)
        ensures
            r == self.z,
    {
        self.z
    }

    /// The red channel, which is the first component.
    pub fn r(&self) -> (r: Scalar)
        ensures
            r == self.x,
    {
        self.x
    }

    /// The green channel, which is the second component.
    pub fn g(&self) -> (r: Scalar)
        ensures
            r == self.y,
    {
        self.y
    }

    /// The blue channel, which is the third component.
    pub fn b(&self) -> (r: Scalar)
        ensures
            r == self.z,
    {
        self.z
    }

    /// The component at `index`, which is 0, 1 or 2.
    pub fn index(&self, index: usize) -> (r: Scalar)
        requires
            index < 3,
        ensures
            r == self.axis(index as int),
    {
        if index == 0 {
            self.x
        } else if index == 1 {
            self.y
        } else {
            self.z
        }
    }

    /// The opposite triple.
    pub fn neg(self) -> (r: Vec3)
        ensures
            r == self.neg_spec(),
    {
        Vec3 { x: self.x.neg(), y: self.y.neg(), z: self.z.neg() }
    }
}

} // verus!
