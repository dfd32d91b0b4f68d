//! The footprint of a polygon on an axis.

use crate::scalar::addition_commutes;
use crate::scalar::arithmetic_is_specified;
use crate::scalar::comparison_is_specified;
use crate::scalar::Scalar;
use crate::scalar::totally_ordered;
use vstd::prelude::*;
use vstd::std_specs::cmp::PartialOrdIs;
use vstd::std_specs::cmp::PartialOrdSpec;
use vstd::std_specs::ops::AddSpec;
use vstd::std_specs::ops::SubSpec;

verus! {

/// The positions of the four corners of a polygon along an axis.
#[derive(Copy, Debug)]
pub struct LineProjection<T> {
    /// The position of each corner.
    pub markers: [T; 4],
}

impl<T: Copy> Clone for LineProjection<T> {
    fn clone(&self) -> (r: Self)
        ensures
            r == *self,
    {
        *self
    }
}

/// `b` where `a > b`, else `a`.
pub open spec fn lower<T: Scalar>(a: T, b: T) -> T {
    if a.is_gt(&b) {
        b
    } else {
        a
    }
}

/// `a` where `a > b`, else `b`.
pub open spec fn upper<T: Scalar>(a: T, b: T) -> T {
    if a.is_gt(&b) {
        a
    } else {
        b
    }
}

impl<T: Scalar> LineProjection<T> {
    /// The lower of the four markers and the upper of the four, each found
    /// by comparing the first marker with the third, the second with the
    /// fourth, and the two that come out of that.
    pub open spec fn get_bounds_spec(&self) -> (T, T) {
        let m = self.markers;
        (lower(lower(m[0], m[2]), lower(m[1], m[3])), upper(upper(m[0], m[2]), upper(m[1], m[3])))
    }

    /// The span that covers both footprints is strictly shorter than the two
    /// footprints together.
    pub open spec fn intersect_spec(&self, other: &Self) -> bool {
        let span = self.get_bounds_spec();
        let other_span = other.get_bounds_spec();
        let left = if span.0.is_lt(&other_span.0) {
            span.0
        } else {
            other_span.0
        };
        let right = if span.1.is_gt(&other_span.1) {
            span.1
        } else {
            other_span.1
        };
        right.sub_spec(left).is_lt(
            &span.1.sub_spec(span.0).add_spec(other_span.1.sub_spec(other_span.0)),
        )
    }

    /// No operation of `intersect` fails: the three subtractions and the
    /// addition.
    pub open spec fn intersect_req(&self, other: &Self) -> bool {
        let span = self.get_bounds_spec();
        let other_span = other.get_bounds_spec();
        let left = if span.0.is_lt(&other_span.0) {
            span.0
        } else {
            other_span.0
        };
        let right = if span.1.is_gt(&other_span.1) {
            span.1
        } else {
            other_span.1
        };
        &&& right.sub_req(left)
        &&& span.1.sub_req(span.0)
        &&& other_span.1.sub_req(other_span.0)
        &&& span.1.sub_spec(span.0).add_req(other_span.1.sub_spec(other_span.0))
    }

    /// The two ends of the footprint: the least marker and the greatest.
    ///
    /// The markers are sorted by five comparisons and exchanges, since a
    /// scalar type need not offer a minimum and a maximum.
    #[verifier::when_used_as_spec(get_bounds_spec)]
    pub fn get_bounds(&self) -> (r: (T, T))
        requires
            comparison_is_specified::<T>(),
        ensures
            r == self.get_bounds_spec(),
    {
        let mut a = self.markers[0];
        let mut b = self.markers[1];
        let mut c = self.markers[2];
        let mut d = self.markers[3];
        if a > c {
            let t = a;
            a = c;
            c = t;
        }
        if b > d {
            let t = b;
            b = d;
            d = t;
        }
        if a > b {
            let t = a;
            a = b;
            b = t;
        }
        if c > d {
            let t = c;
            c = d;
            d = t;
        }
        if b > c {
            let t = b;
            b = c;
            c = t;
        }
        (a, d)
    }

    /// Whether the two footprints overlap in more than a point.
    #[verifier::when_used_as_spec(intersect_spec)]
    pub fn intersect(&self, other: &Self) -> (r: bool)
        requires
            comparison_is_specified::<T>(),
            arithmetic_is_specified::<T>(),
            self.intersect_req(other),
        ensures
            r == self.intersect_spec(other),
    {
        let span = self.get_bounds();
        let other_span = other.get_bounds();
        let left = if span.0 < other_span.0 {
            span.0
        } else {
            other_span.0
        };
        let right = if span.1 > other_span.1 {
            span.1
        } else {
            other_span.1
        };
        right - left < (span.1 - span.0) + (other_span.1 - other_span.0)
    }

    /// Where the order of the scalars is total, the bounds are the least and
    /// the greatest of the four markers: both are markers, no marker is below
    /// the first and none is above the second.
    pub proof fn lemma_bounds_are_extremes(self)
        requires
            totally_ordered::<T>(),
        ensures
            ({
                let (lo, hi) = self.get_bounds_spec();
                let m = self.markers;
                &&& lo.is_le(&m[0]) && lo.is_le(&m[1]) && lo.is_le(&m[2]) && lo.is_le(&m[3])
                &&& m[0].is_le(&hi) && m[1].is_le(&hi) && m[2].is_le(&hi) && m[3].is_le(&hi)
                &&& lo == m[0] || lo == m[1] || lo == m[2] || lo == m[3]
                &&& hi == m[0] || hi == m[1] || hi == m[2] || hi == m[3]
            }),
    {
        let m = self.markers;
        let lo_ac = lower(m[0], m[2]);
        let lo_bd = lower(m[1], m[3]);
        let hi_ac = upper(m[0], m[2]);
        let hi_bd = upper(m[1], m[3]);
        let lo = lower(lo_ac, lo_bd);
        let hi = upper(hi_ac, hi_bd);
        Self::lemma_lower_upper(m[0], m[2]);
        Self::lemma_lower_upper(m[1], m[3]);
        Self::lemma_lower_upper(lo_ac, lo_bd);
        Self::lemma_lower_upper(hi_ac, hi_bd);
        assert(lo.is_le(&m[0]) && lo.is_le(&m[1]) && lo.is_le(&m[2]) && lo.is_le(&m[3]));
        assert(m[0].is_le(&hi) && m[1].is_le(&hi) && m[2].is_le(&hi) && m[3].is_le(&hi));
        assert(self.markers[0] == lo || self.markers[1] == lo || self.markers[2] == lo
            || self.markers[3] == lo);
        assert(self.markers[0] == hi || self.markers[1] == hi || self.markers[2] == hi
            || self.markers[3] == hi);
    }

    /// Of two scalars in a total order, `lower` is one of them and is below
    /// both, and `upper` is one of them and is above both.
    pub proof fn lemma_lower_upper(a: T, b: T)
        requires
            totally_ordered::<T>(),
        ensures
            lower(a, b).is_le(&a),
            lower(a, b).is_le(&b),
            a.is_le(&upper(a, b)),
            b.is_le(&upper(a, b)),
            lower(a, b) == a || lower(a, b) == b,
            upper(a, b) == a || upper(a, b) == b,
    {
        assert(a.partial_cmp_spec(&b) is Some);
        assert(b.partial_cmp_spec(&a) is Some);
        assert(a.partial_cmp_spec(&a) is Some);
        assert(b.partial_cmp_spec(&b) is Some);
        assert(a.is_lt(&b) <==> b.is_gt(&a));
        assert(b.is_lt(&a) <==> a.is_gt(&b));
    }

    /// Where the order of the scalars is total and addition commutes, two
    /// footprints overlap whichever of them is asked.
    pub proof fn lemma_intersect_is_symmetric(self, other: Self)
        requires
            totally_ordered::<T>(),
            addition_commutes::<T>(),
        ensures
            self.intersect_spec(&other) == other.intersect_spec(&self),
    {
        let span = self.get_bounds_spec();
        let other_span = other.get_bounds_spec();
        Self::lemma_lower_upper(span.0, other_span.0);
        Self::lemma_lower_upper(other_span.0, span.0);
        Self::lemma_lower_upper(span.1, other_span.1);
        Self::lemma_lower_upper(other_span.1, span.1);
        assert(span.0.partial_cmp_spec(&other_span.0) is Some);
        assert(other_span.0.partial_cmp_spec(&span.0) is Some);
        assert(span.1.partial_cmp_spec(&other_span.1) is Some);
        assert(other_span.1.partial_cmp_spec(&span.1) is Some);
        assert(span.0.is_lt(&other_span.0) <==> other_span.0.is_gt(&span.0));
        assert(other_span.0.is_lt(&span.0) <==> span.0.is_gt(&other_span.0));
        assert(span.1.is_lt(&other_span.1) <==> other_span.1.is_gt(&span.1));
        assert(other_span.1.is_lt(&span.1) <==> span.1.is_gt(&other_span.1));
        let a = span.1.sub_spec(span.0);
        let b = other_span.1.sub_spec(other_span.0);
        assert(a.add_spec(b) == b.add_spec(a));
    }
}

} // verus!
