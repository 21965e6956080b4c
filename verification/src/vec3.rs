//! Three-component vectors and rays, as carried through the library.
use crate::scalar::Scalar;
use vstd::prelude::*;

verus! {

/// A point, direction or colour: three single-precision components.
#[derive(Clone, Copy, Debug, PartialEq, Eq, Structural)]
pub struct Vec3 {
    pub x: Scalar,
    pub y: Scalar,
    pub z: Scalar,
}

impl Vec3 {
    /// The component on axis 0, 1 or 2.
    pub open spec fn component_spec(self, axis: int) -> Scalar {
        if axis == 0 {
            self.x
        } else if axis == 1 {
            self.y
        } else {
            self.z
        }
    }

    /// Every component of `self` is at most the same component of `other`.
    pub open spec fn all_le_spec(self, other: Vec3) -> bool {
        self.x.le_spec(other.x) && self.y.le_spec(other.y) && self.z.le_spec(other.z)
    }

    /// The vector of component-wise minima.
    pub open spec fn min_spec(self, other: Vec3) -> Vec3 {
        Vec3 {
            x: self.x.min_spec(other.x),
            y: self.y.min_spec(other.y),
            z: self.z.min_spec(other.z),
        }
    }

    /// The vector of component-wise maxima.
    pub open spec fn max_spec(self, other: Vec3) -> Vec3 {
        Vec3 {
            x: self.x.max_spec(other.x),
            y: self.y.max_spec(other.y),
            z: self.z.max_spec(other.z),
        }
    }

    /// The vector with the sign of every component flipped.
    pub open spec fn neg_spec(self) -> Vec3 {
        Vec3 { x: self.x.neg_spec(), y: self.y.neg_spec(), z: self.z.neg_spec() }
    }

    pub fn new(x: Scalar, y: Scalar, z: Scalar) -> (v: Vec3)
        ensures
            v == (Vec3 { x, y, z }),
    {
        Vec3 { x, y, z }
    }

    /// The vector whose three components are positive zero.
    pub fn zeros() -> (v: Vec3)
        ensures
            v.x.bits == 0 && v.y.bits == 0 && v.z.bits == 0,
    {
        Vec3 { x: Scalar::zero(), y: Scalar::zero(), z: Scalar::zero() }
    }

    pub fn component(&self, axis: usize) -> (c: Scalar)
        requires
            axis < 3,
        ensures
            c == self.component_spec(axis as int),
    {
        if axis == 0 {
            self.x
        } else if axis == 1 {
            self.y
        } else {
            self.z
        }
    }

    pub fn all_le(&self, other: &Vec3) -> (b: bool)
        ensures
            b == self.all_le_spec(*other),
    {
        self.x.le(other.x) && self.y.le(other.y) && self.z.le(other.z)
    }

    pub fn min(&self, other: &Vec3) -> (v: Vec3)
        ensures
            v == self.min_spec(*other),
    {
        Vec3 { x: self.x.min(other.x), y: self.y.min(other.y), z: self.z.min(other.z) }
    }

    pub fn max(&self, other: &Vec3) -> (v: Vec3)
        ensures
            v == self.max_spec(*other),
    {
        Vec3 { x: self.x.max(other.x), y: self.y.max(other.y), z: self.z.max(other.z) }
    }

    pub fn neg(&self) -> (v: Vec3)
        ensures
            v == self.neg_spec(),
    {
        Vec3 { x: self.x.neg(), y: self.y.neg(), z: self.z.neg() }
    }
}

/// A half-line `origin + t * direction`.
#[derive(Clone, Copy, Debug, PartialEq, Eq, Structural)]
pub struct Ray {
    pub origin: Vec3,
    pub direction: Vec3,
}

impl Ray {
    pub fn new(origin: Vec3, direction: Vec3) -> (r: Ray)
        ensures
            r == (Ray { origin, direction }),
    {
        Ray { origin, direction }
    }
}

} // verus!
