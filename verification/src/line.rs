//! Lines in space.

use crate::scalar::approx_eq;
use crate::scalar::approx_eq_spec;
use crate::scalar::arithmetic_is_specified;
use crate::scalar::is_specified;
use crate::scalar::is_zero;
use crate::scalar::is_zero_spec;
use crate::scalar::one;
use crate::scalar::one_spec;
use crate::scalar::Scalar;
use crate::scalar::tolerance_req;
use crate::vector::Vec3;
use vstd::prelude::*;
use vstd::std_specs::ops::DivSpec;
use vstd::std_specs::ops::SubSpec;

verus! {

/// The line through `origin` along `dir`.
///
/// A line built by a caller has a direction of length one (`is_valid`). The
/// line in which two planes meet has their normals' cross product as its
/// direction, whatever its length: every use that this crate makes of a
/// direction is independent of its length.
#[derive(Copy, Debug)]
pub struct Line<T> {
    /// Any point of the line.
    pub origin: Vec3<T>,
    /// The direction of the line.
    pub dir: Vec3<T>,
}

impl<T: Copy> Clone for Line<T> {
    fn clone(&self) -> (r: Self)
        ensures
            r == *self,
    {
        *self
    }
}

impl<T: Scalar> Line<T> {
    /// The square of the direction's length is one, within the tolerance.
    pub open spec fn is_valid_spec(&self) -> bool {
        approx_eq_spec(self.dir.dot_spec(self.dir), one_spec::<T>())
    }

    /// Every coordinate of `v` is zero within the tolerance.
    pub open spec fn vanishes(v: Vec3<T>) -> bool {
        is_zero_spec(v.x) && is_zero_spec(v.y) && is_zero_spec(v.z)
    }

    /// The directions are parallel, and so are this direction and the vector
    /// from the other origin to this one.
    pub open spec fn matches_spec(&self, other: &Self) -> bool {
        Self::vanishes(self.dir.cross_spec(other.dir)) && Self::vanishes(
            self.dir.cross_spec(self.origin.minus_spec(other.origin)),
        )
    }

    /// What is left of `v` once its part along the line is taken away:
    /// `v - dir * ((dir . v) / (dir . dir))`.
    pub open spec fn across_spec(&self, v: Vec3<T>) -> Vec3<T> {
        v.minus_spec(
            self.dir.scale_spec(self.dir.dot_spec(v).div_spec(self.dir.dot_spec(self.dir))),
        )
    }

    /// No operation of `is_valid` fails.
    pub open spec fn is_valid_req(&self) -> bool {
        &&& tolerance_req::<T>()
        &&& self.dir.dot_req(self.dir)
        &&& self.dir.dot_spec(self.dir).sub_req(one_spec::<T>())
    }

    /// No operation of `matches` fails.
    pub open spec fn matches_req(&self, other: &Self) -> bool {
        &&& tolerance_req::<T>()
        &&& self.origin.minus_req(other.origin)
        &&& self.dir.cross_req(other.dir)
        &&& self.dir.cross_req(self.origin.minus_spec(other.origin))
    }

    /// No operation of `across` fails.
    pub open spec fn across_req(&self, v: Vec3<T>) -> bool {
        &&& self.dir.dot_req(v)
        &&& self.dir.dot_req(self.dir)
        &&& self.dir.dot_spec(v).div_req(self.dir.dot_spec(self.dir))
        &&& self.dir.scale_req(self.dir.dot_spec(v).div_spec(self.dir.dot_spec(self.dir)))
        &&& v.minus_req(
            self.dir.scale_spec(self.dir.dot_spec(v).div_spec(self.dir.dot_spec(self.dir))),
        )
    }

    /// Whether the direction has length one.
    #[verifier::when_used_as_spec(is_valid_spec)]
    pub fn is_valid(&self) -> (r: bool)
        requires
            is_specified::<T>(),
            self.is_valid_req(),
        ensures
            r == self.is_valid_spec(),
    {
        approx_eq(self.dir.dot(self.dir), one::<T>())
    }

    /// Whether the two lines are the same set of points.
    #[verifier::when_used_as_spec(matches_spec)]
    pub fn matches(&self, other: &Self) -> (r: bool)
        requires
            is_specified::<T>(),
            self.matches_req(other),
        ensures
            r == self.matches_spec(other),
    {
        let diff = self.origin.minus(other.origin);
        let turn = self.dir.cross(other.dir);
        let lever = self.dir.cross(diff);
        is_zero(turn.x) && is_zero(turn.y) && is_zero(turn.z) && is_zero(lever.x) && is_zero(
            lever.y,
        ) && is_zero(lever.z)
    }

    /// The part of `v` that is perpendicular to the line.
    #[verifier::when_used_as_spec(across_spec)]
    pub fn across(&self, v: Vec3<T>) -> (r: Vec3<T>)
        requires
            arithmetic_is_specified::<T>(),
            self.across_req(v),
        ensures
            r == self.across_spec(v),
    {
        v.minus(self.dir.scale(self.dir.dot(v) / self.dir.dot(self.dir)))
    }
}

} // verus!
