//! Planes in space.

use crate::line::Line;
use crate::polygon::Polygon;
use crate::scalar::arithmetic_is_specified;
use crate::scalar::comparison_is_specified;
use crate::scalar::conversion_is_specified;
use crate::scalar::epsilon;
use crate::scalar::epsilon_spec;
use crate::scalar::is_specified;
use crate::scalar::one;
use crate::scalar::one_spec;
use crate::scalar::Scalar;
use crate::scalar::tolerance_req;
use crate::scalar::zero;
use crate::scalar::zero_spec;
use crate::vector::Vec3;
use vstd::prelude::*;
use vstd::std_specs::cmp::PartialEqSpec;
use vstd::std_specs::cmp::PartialOrdIs;
use vstd::std_specs::ops::AddSpec;
use vstd::std_specs::ops::DivSpec;
use vstd::std_specs::ops::MulSpec;
use vstd::std_specs::ops::SubSpec;

verus! {

/// The points `v` with `v . normal + offset = 0`.
#[derive(Copy, Debug, PartialEq)]
pub struct Plane<T> {
    /// The direction perpendicular to the plane, of length one.
    pub normal: Vec3<T>,
    /// The distance of the origin from the plane, along the normal.
    pub offset: T,
}

impl<T: Copy> Clone for Plane<T> {
    fn clone(&self) -> (r: Self)
        ensures
            r == *self,
    {
        *self
    }
}

impl<T: Scalar> Plane<T> {
    /// `point . normal + offset`.
    pub open spec fn signed_distance_to_spec(&self, point: &Vec3<T>) -> T {
        point.dot_spec(self.normal).add_spec(self.offset)
    }

    /// The distances of the four corners of `poly`, added to zero one after
    /// the other.
    pub open spec fn signed_distance_sum_to_spec<A>(&self, poly: &Polygon<T, A>) -> T {
        zero_spec::<T>().add_spec(self.signed_distance_to_spec(&poly.points[0])).add_spec(
            self.signed_distance_to_spec(&poly.points[1]),
        ).add_spec(self.signed_distance_to_spec(&poly.points[2])).add_spec(
            self.signed_distance_to_spec(&poly.points[3]),
        )
    }

    /// Every point has the strict sign of the first: the distance of each,
    /// multiplied by the distance of the first, is not zero or less.
    pub open spec fn are_outside_spec(&self, points: Seq<Vec3<T>>) -> bool {
        forall|i: int|
            #![trigger points[i]]
            0 <= i < points.len() ==> !self.signed_distance_to_spec(&points[i]).mul_spec(
                self.signed_distance_to_spec(&points[0]),
            ).is_le(&zero_spec::<T>())
    }

    /// The two planes have the same normal and the same offset.
    pub open spec fn contains_spec(&self, other: &Self) -> bool {
        &&& self.normal.x.eq_spec(&other.normal.x)
        &&& self.normal.y.eq_spec(&other.normal.y)
        &&& self.normal.z.eq_spec(&other.normal.z)
        &&& self.offset.eq_spec(&other.offset)
    }

    /// The two planes are parallel, or nearly: the square of the length of
    /// the cross product of their normals is below the tolerance.
    pub open spec fn is_parallel_to(&self, other: &Self) -> bool {
        let dir = self.normal.cross_spec(other.normal);
        dir.dot_spec(dir).is_lt(&epsilon_spec::<T>())
    }

    /// A point of both planes: with `w` the dot product of the normals and
    /// `d`, `d'` the offsets,
    /// `normal * ((d' * w - d) / (1 - w * w)) - normal' * ((d' - d * w) / (1 - w * w))`.
    pub open spec fn meeting_point(&self, other: &Self) -> Vec3<T> {
        let w = self.normal.dot_spec(other.normal);
        let divisor = one_spec::<T>().sub_spec(w.mul_spec(w));
        self.normal.scale_spec(
            other.offset.mul_spec(w).sub_spec(self.offset).div_spec(divisor),
        ).minus_spec(
            other.normal.scale_spec(
                other.offset.sub_spec(self.offset.mul_spec(w)).div_spec(divisor),
            ),
        )
    }

    /// No operation of `meeting_point` fails.
    pub open spec fn meeting_point_req(&self, other: &Self) -> bool {
        let w = self.normal.dot_spec(other.normal);
        let divisor = one_spec::<T>().sub_spec(w.mul_spec(w));
        let ours = other.offset.mul_spec(w).sub_spec(self.offset);
        let theirs = other.offset.sub_spec(self.offset.mul_spec(w));
        &&& self.normal.dot_req(other.normal)
        &&& w.mul_req(w)
        &&& one_spec::<T>().sub_req(w.mul_spec(w))
        &&& other.offset.mul_req(w)
        &&& other.offset.mul_spec(w).sub_req(self.offset)
        &&& ours.div_req(divisor)
        &&& self.normal.scale_req(ours.div_spec(divisor))
        &&& self.offset.mul_req(w)
        &&& other.offset.sub_req(self.offset.mul_spec(w))
        &&& theirs.div_req(divisor)
        &&& other.normal.scale_req(theirs.div_spec(divisor))
        &&& self.normal.scale_spec(ours.div_spec(divisor)).minus_req(
            other.normal.scale_spec(theirs.div_spec(divisor)),
        )
    }

    /// No operation of `intersect` fails: the test for parallel planes, and
    /// for planes that are not parallel the point and the direction of the
    /// line.
    pub open spec fn intersect_req(&self, other: &Self) -> bool {
        let dir = self.normal.cross_spec(other.normal);
        &&& tolerance_req::<T>()
        &&& self.normal.cross_req(other.normal)
        &&& dir.dot_req(dir)
        &&& !self.is_parallel_to(other) ==> self.meeting_point_req(other)
    }

    /// The line in which the two planes meet, unless they are parallel. Its
    /// direction is the cross product of the normals.
    pub open spec fn intersect_spec(&self, other: &Self) -> Option<Line<T>> {
        if self.is_parallel_to(other) {
            None
        } else {
            Some(
                Line {
                    origin: self.meeting_point(other),
                    dir: self.normal.cross_spec(other.normal),
                },
            )
        }
    }

    /// No operation of `signed_distance_to` fails.
    pub open spec fn signed_distance_to_req(&self, point: &Vec3<T>) -> bool {
        point.dot_req(self.normal) && point.dot_spec(self.normal).add_req(self.offset)
    }

    /// No operation of `signed_distance_sum_to` fails.
    pub open spec fn signed_distance_sum_to_req<A>(&self, poly: &Polygon<T, A>) -> bool {
        let d0 = self.signed_distance_to_spec(&poly.points[0]);
        let d1 = self.signed_distance_to_spec(&poly.points[1]);
        let d2 = self.signed_distance_to_spec(&poly.points[2]);
        let d3 = self.signed_distance_to_spec(&poly.points[3]);
        let s1 = zero_spec::<T>().add_spec(d0);
        let s2 = s1.add_spec(d1);
        let s3 = s2.add_spec(d2);
        &&& self.signed_distance_to_req(&poly.points[0])
        &&& self.signed_distance_to_req(&poly.points[1])
        &&& self.signed_distance_to_req(&poly.points[2])
        &&& self.signed_distance_to_req(&poly.points[3])
        &&& zero_spec::<T>().add_req(d0)
        &&& s1.add_req(d1)
        &&& s2.add_req(d2)
        &&& s3.add_req(d3)
    }

    /// No operation of `are_outside` fails.
    pub open spec fn are_outside_req(&self, points: Seq<Vec3<T>>) -> bool {
        forall|i: int|
            #![trigger points[i]]
            0 <= i < points.len() ==> self.signed_distance_to_req(&points[i])
                && self.signed_distance_to_spec(&points[i]).mul_req(
                self.signed_distance_to_spec(&points[0]),
            )
    }

    /// The distance of `point` from the plane: positive on the side that the
    /// normal points to, negative on the other.
    #[verifier::when_used_as_spec(signed_distance_to_spec)]
    pub fn signed_distance_to(&self, point: &Vec3<T>) -> (r: T)
        requires
            arithmetic_is_specified::<T>(),
            self.signed_distance_to_req(point),
        ensures
            r == self.signed_distance_to_spec(point),
    {
        point.dot(self.normal) + self.offset
    }

    /// The sum of the distances of the corners of `poly` from the plane.
    #[verifier::when_used_as_spec(signed_distance_sum_to_spec)]
    pub fn signed_distance_sum_to<A>(&self, poly: &Polygon<T, A>) -> (r: T)
        requires
            arithmetic_is_specified::<T>(),
            conversion_is_specified::<T>(),
            self.signed_distance_sum_to_req(poly),
        ensures
            r == self.signed_distance_sum_to_spec(poly),
    {
        let mut sum: T = zero::<T>();
        sum = sum + self.signed_distance_to(&poly.points[0]);
        sum = sum + self.signed_distance_to(&poly.points[1]);
        sum = sum + self.signed_distance_to(&poly.points[2]);
        sum + self.signed_distance_to(&poly.points[3])
    }

    /// Whether all of `points` lie strictly on one side of the plane. A point
    /// that touches the plane is on neither side.
    pub fn are_outside(&self, points: &[Vec3<T>]) -> (r: bool)
        requires
            is_specified::<T>(),
            self.are_outside_req(points@),
            points@.len() > 0,
        ensures
            r == self.are_outside_spec(points@),
    {
        let d0 = self.signed_distance_to(&points[0]);
        let mut i: usize = 0;
        while i < points.len()
            invariant
                is_specified::<T>(),
                self.are_outside_req(points@),
                i <= points@.len(),
                d0 == self.signed_distance_to_spec(&points@[0]),
                forall|j: int|
                    #![trigger points@[j]]
                    0 <= j < i ==> !self.signed_distance_to_spec(&points@[j]).mul_spec(d0).is_le(
                        &zero_spec::<T>(),
                    ),
            decreases points@.len() - i,
        {
            if self.signed_distance_to(&points[i]) * d0 <= zero::<T>() {
                return false;
            }
            i = i + 1;
        }
        true
    }

    /// Whether the other plane is this plane, normal and offset.
    #[verifier::when_used_as_spec(contains_spec)]
    pub fn contains(&self, other: &Self) -> (r: bool)
        requires
            comparison_is_specified::<T>(),
        ensures
            r == self.contains_spec(other),
    {
        self.normal.x == other.normal.x && self.normal.y == other.normal.y && self.normal.z
            == other.normal.z && self.offset == other.offset
    }

    /// The line in which the two planes meet; `None` where they are parallel.
    #[verifier::when_used_as_spec(intersect_spec)]
    pub fn intersect(&self, other: &Self) -> (r: Option<Line<T>>)
        requires
            is_specified::<T>(),
            self.intersect_req(other),
        ensures
            r == self.intersect_spec(other),
    {
        let dir = self.normal.cross(other.normal);
        if dir.dot(dir) < epsilon::<T>() {
            return None;
        }
        let w = self.normal.dot(other.normal);
        let divisor = one::<T>() - w * w;
        let origin = self.normal.scale((other.offset * w - self.offset) / divisor).minus(
            other.normal.scale((other.offset - self.offset * w) / divisor),
        );
        Some(Line { origin, dir })
    }
}

} // verus!
