//! Three scalars: a point, a direction or a colour.
use crate::scalar::Scalar;
use vstd::prelude::*;

verus! {

#[derive(Clone, Copy, Debug, PartialEq, Eq, Structural)]
pub struct Vec3 {
    pub x: Scalar,
    pub y: Scalar,
    pub z: Scalar,
}

impl Vec3 {
    /// The component along `axis`: `0` is `x`, `1` is `y`, anything else `z`.
    pub open spec fn at(self, axis: int) -> Scalar {
        if axis == 0 {
            self.x
        } else if axis == 1 {
            self.y
        } else {
            self.z
        }
    }

    /// No component is a NaN.
    pub open spec fn finite_order(self) -> bool {
        !self.x.nan() && !self.y.nan() && !self.z.nan()
    }

    /// Equal as numbers, component by component.
    pub open spec fn same_spec(self, other: Vec3) -> bool {
        self.x.same_spec(other.x) && self.y.same_spec(other.y) && self.z.same_spec(other.z)
    }

    pub open spec fn neg_spec(self) -> Vec3 {
        Vec3 { x: self.x.neg_spec(), y: self.y.neg_spec(), z: self.z.neg_spec() }
    }

    pub fn new(x: Scalar, y: Scalar, z: Scalar) -> (v: Vec3)
        ensures
            v == (Vec3 { x, y, z }),
    {
        Vec3 { x, y, z }
    }

    /// `(1, 1, 1)`.
    pub fn ones() -> (v: Vec3)
        ensures
            v == (Vec3 { x: Scalar { bits: crate::scalar::ONE_BITS }, y: Scalar { bits: crate::scalar::ONE_BITS }, z: Scalar { bits: crate::scalar::ONE_BITS } }),
    {
        Vec3::new(Scalar::one(), Scalar::one(), Scalar::one())
    }

    /// `(0, 0, 0)`.
    pub fn zero() -> (v: Vec3)
        ensures
            v == (Vec3 { x: Scalar { bits: 0 }, y: Scalar { bits: 0 }, z: Scalar { bits: 0 } }),
    {
        Vec3::new(Scalar::zero(), Scalar::zero(), Scalar::zero())
    }

    /// The component along `axis`, which must be `0`, `1` or `2`.
    pub fn index(&self, axis: usize) -> (c: Scalar)
        requires
            axis < 3,
        ensures
            c == self.at(axis as int),
    {
        if axis == 0 {
            self.x
        } else if axis == 1 {
            self.y
        } else {
            self.z
        }
    }

    /// Replaces the component along `axis`, which must be `0`, `1` or `2`.
    pub fn index_mut(&mut self, axis: usize, value: Scalar)
        requires
            axis < 3,
        ensures
            final(self).at(axis as int) == value,
            forall|other: int| 0 <= other < 3 && other != axis ==> final(self).at(other) == old(self).at(other),
    {
        if axis == 0 {
            self.x = value;
        } else if axis == 1 {
            self.y = value;
        } else {
            self.z = value;
        }
    }

    pub fn neg(self) -> (v: Vec3)
        ensures
            v == self.neg_spec(),
    {
        Vec3 { x: self.x.neg(), y: self.y.neg(), z: self.z.neg() }
    }
}

} // verus!
