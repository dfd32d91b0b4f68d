//! Points and directions in space.

use crate::scalar::arithmetic_is_specified;
use crate::scalar::Scalar;
use vstd::prelude::*;
use vstd::std_specs::ops::AddSpec;
use vstd::std_specs::ops::MulSpec;
use vstd::std_specs::ops::SubSpec;

verus! {

/// Three coordinates: a point of space, or a direction in it.
#[derive(Copy, Debug, PartialEq)]
pub struct Vec3<T> {
    pub x: T,
    pub y: T,
    pub z: T,
}

impl<T: Copy> Clone for Vec3<T> {
    fn clone(&self) -> (r: Self)
        ensures
            r == *self,
    {
        *self
    }
}

impl<T: Scalar> Vec3<T> {
    pub open spec fn plus_spec(self, other: Self) -> Self {
        Vec3 {
            x: self.x.add_spec(other.x),
            y: self.y.add_spec(other.y),
            z: self.z.add_spec(other.z),
        }
    }

    pub open spec fn minus_spec(self, other: Self) -> Self {
        Vec3 {
            x: self.x.sub_spec(other.x),
            y: self.y.sub_spec(other.y),
            z: self.z.sub_spec(other.z),
        }
    }

    pub open spec fn scale_spec(self, factor: T) -> Self {
        Vec3 {
            x: self.x.mul_spec(factor),
            y: self.y.mul_spec(factor),
            z: self.z.mul_spec(factor),
        }
    }

    /// `(x * x' + y * y') + z * z'`.
    pub open spec fn dot_spec(self, other: Self) -> T {
        self.x.mul_spec(other.x).add_spec(self.y.mul_spec(other.y)).add_spec(
            self.z.mul_spec(other.z),
        )
    }

    pub open spec fn cross_spec(self, other: Self) -> Self {
        Vec3 {
            x: self.y.mul_spec(other.z).sub_spec(self.z.mul_spec(other.y)),
            y: self.z.mul_spec(other.x).sub_spec(self.x.mul_spec(other.z)),
            z: self.x.mul_spec(other.y).sub_spec(self.y.mul_spec(other.x)),
        }
    }

    /// No addition of `plus` fails.
    pub open spec fn plus_req(self, other: Self) -> bool {
        self.x.add_req(other.x) && self.y.add_req(other.y) && self.z.add_req(other.z)
    }

    /// No subtraction of `minus` fails.
    pub open spec fn minus_req(self, other: Self) -> bool {
        self.x.sub_req(other.x) && self.y.sub_req(other.y) && self.z.sub_req(other.z)
    }

    /// No multiplication of `scale` fails.
    pub open spec fn scale_req(self, factor: T) -> bool {
        self.x.mul_req(factor) && self.y.mul_req(factor) && self.z.mul_req(factor)
    }

    /// No operation of `dot` fails.
    pub open spec fn dot_req(self, other: Self) -> bool {
        &&& self.x.mul_req(other.x)
        &&& self.y.mul_req(other.y)
        &&& self.z.mul_req(other.z)
        &&& self.x.mul_spec(other.x).add_req(self.y.mul_spec(other.y))
        &&& self.x.mul_spec(other.x).add_spec(self.y.mul_spec(other.y)).add_req(
            self.z.mul_spec(other.z),
        )
    }

    /// No operation of `cross` fails.
    pub open spec fn cross_req(self, other: Self) -> bool {
        &&& self.y.mul_req(other.z) && self.z.mul_req(other.y)
        &&& self.z.mul_req(other.x) && self.x.mul_req(other.z)
        &&& self.x.mul_req(other.y) && self.y.mul_req(other.x)
        &&& self.y.mul_spec(other.z).sub_req(self.z.mul_spec(other.y))
        &&& self.z.mul_spec(other.x).sub_req(self.x.mul_spec(other.z))
        &&& self.x.mul_spec(other.y).sub_req(self.y.mul_spec(other.x))
    }

    /// The vector with the given coordinates.
    pub fn new(x: T, y: T, z: T) -> (r: Self)
        ensures
            r == (Vec3 { x, y, z }),
    {
        Vec3 { x, y, z }
    }

    /// The sum, coordinate by coordinate.
    #[verifier::when_used_as_spec(plus_spec)]
    pub fn plus(self, other: Self) -> (r: Self)
        requires
            arithmetic_is_specified::<T>(),
            self.plus_req(other),
        ensures
            r == self.plus_spec(other),
    {
        Vec3 { x: self.x + other.x, y: self.y + other.y, z: self.z + other.z }
    }

    /// The difference, coordinate by coordinate.
    #[verifier::when_used_as_spec(minus_spec)]
    pub fn minus(self, other: Self) -> (r: Self)
        requires
            arithmetic_is_specified::<T>(),
            self.minus_req(other),
        ensures
            r == self.minus_spec(other),
    {
        Vec3 { x: self.x - other.x, y: self.y - other.y, z: self.z - other.z }
    }

    /// Each coordinate multiplied by `factor`.
    #[verifier::when_used_as_spec(scale_spec)]
    pub fn scale(self, factor: T) -> (r: Self)
        requires
            arithmetic_is_specified::<T>(),
            self.scale_req(factor),
        ensures
            r == self.scale_spec(factor),
    {
        Vec3 { x: self.x * factor, y: self.y * factor, z: self.z * factor }
    }

    /// The dot product.
    #[verifier::when_used_as_spec(dot_spec)]
    pub fn dot(self, other: Self) -> (r: T)
        requires
            arithmetic_is_specified::<T>(),
            self.dot_req(other),
        ensures
            r == self.dot_spec(other),
    {
        self.x * other.x + self.y * other.y + self.z * other.z
    }

    /// The cross product.
    #[verifier::when_used_as_spec(cross_spec)]
    pub fn cross(self, other: Self) -> (r: Self)
        requires
            arithmetic_is_specified::<T>(),
            self.cross_req(other),
        ensures
            r == self.cross_spec(other),
    {
        Vec3 {
            x: self.y * other.z - self.z * other.y,
            y: self.z * other.x - self.x * other.z,
            z: self.x * other.y - self.y * other.x,
        }
    }
}

} // verus!
