//! Convex quadrilaterals in space.

use crate::line::Line;
use crate::plane::Plane;
use crate::projection::LineProjection;
use crate::scalar::arithmetic_is_specified;
use crate::scalar::comparison_is_specified;
use crate::scalar::epsilon;
use crate::scalar::epsilon_spec;
use crate::scalar::is_specified;
use crate::scalar::is_zero;
use crate::scalar::is_zero_spec;
use crate::scalar::one;
use crate::scalar::one_spec;
use crate::scalar::Scalar;
use crate::scalar::tolerance_req;
use crate::scalar::zero;
use crate::scalar::zero_spec;
use crate::vector::Vec3;
use vstd::prelude::*;
use vstd::std_specs::cmp::PartialOrdIs;
use vstd::std_specs::ops::DivSpec;

verus! {

/// A convex polygon of four points in one plane, with the tag of the layer
/// that it is a part of. A triangle is a polygon whose last two points are
/// the same.
#[derive(Copy, Debug, PartialEq)]
pub struct Polygon<T, A> {
    /// The corners, in winding order.
    pub points: [Vec3<T>; 4],
    /// The plane that the corners lie in.
    pub plane: Plane<T>,
    /// The caller's tag. Every fragment of a polygon carries the tag of the
    /// polygon.
    pub anchor: A,
}

impl<T: Copy, A: Copy> Clone for Polygon<T, A> {
    fn clone(&self) -> (r: Self)
        ensures
            r == *self,
    {
        *self
    }
}

/// The number of entries of `cuts` that hold a point.
pub open spec fn count_cuts<T>(cuts: [Option<Vec3<T>>; 4]) -> int {
    (if cuts[0].is_some() { 1int } else { 0 }) + (if cuts[1].is_some() { 1int } else { 0 }) + (
    if cuts[2].is_some() { 1int } else { 0 }) + (if cuts[3].is_some() { 1int } else { 0 })
}

/// The first entry of `cuts` that holds a point.
pub open spec fn first_cut<T>(cuts: [Option<Vec3<T>>; 4]) -> int {
    if cuts[0].is_some() {
        0
    } else if cuts[1].is_some() {
        1
    } else if cuts[2].is_some() {
        2
    } else {
        3
    }
}

/// The last entry of `cuts` that holds a point.
pub open spec fn last_cut<T>(cuts: [Option<Vec3<T>>; 4]) -> int {
    if cuts[3].is_some() {
        3
    } else if cuts[2].is_some() {
        2
    } else if cuts[1].is_some() {
        1
    } else {
        0
    }
}

impl<T: Scalar, A: Copy> Polygon<T, A> {
    /// This polygon with other corners.
    pub open spec fn with_points(self, points: [Vec3<T>; 4]) -> Self {
        Polygon { points, plane: self.plane, anchor: self.anchor }
    }

    /// The distance of `point` from the polygon's plane.
    pub open spec fn signed_distance_to_spec(&self, point: &Vec3<T>) -> T {
        self.plane.signed_distance_to_spec(point)
    }

    /// Every corner is on the plane, within the tolerance.
    pub open spec fn is_planar(&self) -> bool {
        &&& is_zero_spec(self.plane.signed_distance_to_spec(&self.points[0]))
        &&& is_zero_spec(self.plane.signed_distance_to_spec(&self.points[1]))
        &&& is_zero_spec(self.plane.signed_distance_to_spec(&self.points[2]))
        &&& is_zero_spec(self.plane.signed_distance_to_spec(&self.points[3]))
    }

    /// The edge that starts at corner `i`.
    pub open spec fn edge(&self, i: int) -> Vec3<T> {
        self.points[(i + 1) % 4].minus_spec(self.points[i])
    }

    /// The turn from edge `i` to the next edge is not against the turn from
    /// the last edge to the first.
    pub open spec fn turns_along(&self, i: int) -> bool {
        let anchor = self.edge(3).cross_spec(self.edge(0));
        !self.edge(i).cross_spec(self.edge(i + 1)).dot_spec(anchor).is_lt(&zero_spec::<T>())
    }

    /// The corners are on the plane and the edges turn one way all round.
    pub open spec fn is_valid_spec(&self) -> bool {
        self.is_planar() && self.turns_along(0) && self.turns_along(1) && self.turns_along(2)
    }

    /// One of the two diagonals has, within the tolerance, no length: the
    /// polygon covers no area.
    pub open spec fn is_empty_spec(&self) -> bool {
        let d = self.points[0].minus_spec(self.points[2]);
        let e = self.points[1].minus_spec(self.points[3]);
        d.dot_spec(d).is_lt(&epsilon_spec::<T>()) || e.dot_spec(e).is_lt(&epsilon_spec::<T>())
    }

    /// No operation of `is_empty` fails.
    pub open spec fn is_empty_req(&self) -> bool {
        let d = self.points[0].minus_spec(self.points[2]);
        let e = self.points[1].minus_spec(self.points[3]);
        &&& tolerance_req::<T>()
        &&& self.points[0].minus_req(self.points[2])
        &&& self.points[1].minus_req(self.points[3])
        &&& d.dot_req(d)
        &&& e.dot_req(e)
    }

    /// The footprint of the four corners on the axis `vector`.
    pub open spec fn project_on_spec(&self, vector: &Vec3<T>) -> LineProjection<T> {
        LineProjection {
            markers: [
                vector.dot_spec(self.points[0]),
                vector.dot_spec(self.points[1]),
                vector.dot_spec(self.points[2]),
                vector.dot_spec(self.points[3]),
            ],
        }
    }

    /// No operation of `project_on` fails.
    pub open spec fn project_on_req(&self, vector: &Vec3<T>) -> bool {
        &&& vector.dot_req(self.points[0])
        &&& vector.dot_req(self.points[1])
        &&& vector.dot_req(self.points[2])
        &&& vector.dot_req(self.points[3])
    }

    /// The line in which the planes of the two polygons meet, where both
    /// polygons reach across it: neither lies on one side of the other's
    /// plane, the planes are not parallel, and the footprints of the two on
    /// the line overlap.
    pub open spec fn intersect_spec(&self, other: &Self) -> Option<Line<T>> {
        if self.plane.are_outside_spec(other.points@) || other.plane.are_outside_spec(
            self.points@,
        ) {
            None
        } else {
            match self.plane.intersect_spec(&other.plane) {
                None => None,
                Some(line) => if self.project_on_spec(&line.dir).intersect_spec(
                    &other.project_on_spec(&line.dir),
                ) {
                    Some(line)
                } else {
                    None
                },
            }
        }
    }

    /// No operation of `is_valid` fails.
    pub open spec fn is_valid_req(&self) -> bool {
        let anchor = self.edge(3).cross_spec(self.edge(0));
        &&& tolerance_req::<T>()
        &&& self.plane.signed_distance_to_req(&self.points[0])
        &&& self.plane.signed_distance_to_req(&self.points[1])
        &&& self.plane.signed_distance_to_req(&self.points[2])
        &&& self.plane.signed_distance_to_req(&self.points[3])
        &&& self.points[1].minus_req(self.points[0])
        &&& self.points[2].minus_req(self.points[1])
        &&& self.points[3].minus_req(self.points[2])
        &&& self.points[0].minus_req(self.points[3])
        &&& self.edge(3).cross_req(self.edge(0))
        &&& self.edge(0).cross_req(self.edge(1))
        &&& self.edge(1).cross_req(self.edge(2))
        &&& self.edge(2).cross_req(self.edge(3))
        &&& self.edge(0).cross_spec(self.edge(1)).dot_req(anchor)
        &&& self.edge(1).cross_spec(self.edge(2)).dot_req(anchor)
        &&& self.edge(2).cross_spec(self.edge(3)).dot_req(anchor)
    }

    /// No operation of `intersect` fails: the tests for a polygon on one
    /// side of the other, the meeting of the planes, and where they meet the
    /// footprints on the line and their comparison.
    pub open spec fn intersect_req(&self, other: &Self) -> bool {
        &&& self.plane.are_outside_req(other.points@)
        &&& other.plane.are_outside_req(self.points@)
        &&& !self.plane.are_outside_spec(other.points@) && !other.plane.are_outside_spec(
            self.points@,
        ) ==> {
            &&& self.plane.intersect_req(&other.plane)
            &&& self.plane.intersect_spec(&other.plane) matches Some(line) ==> {
                &&& self.project_on_req(&line.dir)
                &&& other.project_on_req(&line.dir)
                &&& self.project_on_spec(&line.dir).intersect_req(
                    &other.project_on_spec(&line.dir),
                )
            }
        }
    }

    /// No operation of `edge_cut` fails.
    pub open spec fn edge_cut_req(&self, line: &Line<T>, i: int) -> bool {
        let a = self.points[i];
        let b = self.points[(i + 1) % 4];
        let pr = line.across_spec(line.origin.minus_spec(a));
        let pb = line.across_spec(b.minus_spec(a));
        let t = pr.dot_spec(pb).div_spec(pb.dot_spec(pb));
        &&& tolerance_req::<T>()
        &&& line.origin.minus_req(a)
        &&& b.minus_req(a)
        &&& line.across_req(line.origin.minus_spec(a))
        &&& line.across_req(b.minus_spec(a))
        &&& pb.dot_req(pb)
        &&& pr.dot_req(pb)
        &&& pr.dot_spec(pb).div_req(pb.dot_spec(pb))
        &&& self.edge_cut_spec(line, i) is Some ==> b.minus_spec(a).scale_req(t) && a.plus_req(
            b.minus_spec(a).scale_spec(t),
        )
    }

    /// No operation of `split` fails: the test that the line lies in the
    /// plane, and for a line that does the crossings with the four edges.
    pub open spec fn split_req(&self, line: &Line<T>) -> bool {
        &&& tolerance_req::<T>()
        &&& self.plane.normal.dot_req(line.dir)
        &&& self.plane.signed_distance_to_req(&line.origin)
        &&& self.holds_line(line) ==> {
            &&& self.edge_cut_req(line, 0)
            &&& self.edge_cut_req(line, 1)
            &&& self.edge_cut_req(line, 2)
            &&& self.edge_cut_req(line, 3)
        }
    }

    /// The line lies in the polygon's plane: its direction is perpendicular
    /// to the normal and its origin is on the plane, both within the
    /// tolerance.
    pub open spec fn holds_line(&self, line: &Line<T>) -> bool {
        is_zero_spec(self.plane.normal.dot_spec(line.dir)) && is_zero_spec(
            self.plane.signed_distance_to_spec(&line.origin),
        )
    }

    /// Where `line` crosses the edge from corner `i` to the next corner, if
    /// it crosses it strictly between the two.
    ///
    /// With `pb` the part of the edge across the line and `pr` the part
    /// across the line of the vector from corner `i` to the line's origin,
    /// the crossing is at `t = (pr . pb) / (pb . pb)` along the edge. It
    /// counts when `pb . pb` exceeds the tolerance and `0 < t < 1`.
    pub open spec fn edge_cut_spec(&self, line: &Line<T>, i: int) -> Option<Vec3<T>> {
        let a = self.points[i];
        let b = self.points[(i + 1) % 4];
        let pr = line.across_spec(line.origin.minus_spec(a));
        let pb = line.across_spec(b.minus_spec(a));
        let denom = pb.dot_spec(pb);
        let t = pr.dot_spec(pb).div_spec(denom);
        if denom.is_gt(&epsilon_spec::<T>()) && t.is_gt(&zero_spec::<T>()) && t.is_lt(
            &one_spec::<T>(),
        ) {
            Some(a.plus_spec(b.minus_spec(a).scale_spec(t)))
        } else {
            None
        }
    }

    /// The crossings of `line` with the four edges.
    pub open spec fn cuts_spec(&self, line: &Line<T>) -> [Option<Vec3<T>>; 4] {
        [
            self.edge_cut_spec(line, 0),
            self.edge_cut_spec(line, 1),
            self.edge_cut_spec(line, 2),
            self.edge_cut_spec(line, 3),
        ]
    }

    /// The pieces of this polygon when a line crosses edge `first` in `a` and
    /// the later edge `second` in `b`: the piece that stays in place, and the
    /// one or two that are new.
    ///
    /// Opposite edges leave two quadrilaterals. Neighbouring edges cut a
    /// corner off: the corner is a triangle, and the rest is a quadrilateral
    /// and a second triangle.
    pub open spec fn carve(self, first: int, second: int, a: Vec3<T>, b: Vec3<T>) -> (
        Self,
        Option<Self>,
        Option<Self>,
    ) {
        let p = self.points;
        if second - first == 2 {
            if first == 0 {
                (
                    self.with_points([p[0], a, b, p[3]]),
                    Some(self.with_points([a, p[1], p[2], b])),
                    None,
                )
            } else {
                (
                    self.with_points([p[0], p[1], a, b]),
                    Some(self.with_points([b, a, p[2], p[3]])),
                    None,
                )
            }
        } else if second - first == 3 {
            (
                self.with_points([p[0], a, b, b]),
                Some(self.with_points([p[1], p[2], p[3], b])),
                Some(self.with_points([a, p[1], b, b])),
            )
        } else {
            (
                self.with_points([a, p[first + 1], b, b]),
                Some(self.with_points([b, p[(first + 2) % 4], p[(first + 3) % 4], p[first]])),
                Some(self.with_points([p[first], a, b, b])),
            )
        }
    }

    /// What `split` leaves in place and what it returns.
    ///
    /// Nothing changes unless the line lies in the polygon's plane and
    /// crosses exactly two of the edges.
    pub open spec fn split_spec(self, line: &Line<T>) -> (Self, Option<Self>, Option<Self>) {
        let cuts = self.cuts_spec(line);
        if self.holds_line(line) && count_cuts(cuts) == 2 {
            let first = first_cut(cuts);
            let second = last_cut(cuts);
            self.carve(first, second, cuts[first].unwrap(), cuts[second].unwrap())
        } else {
            (self, None, None)
        }
    }

    /// The distance of `point` from the polygon's plane: positive on the
    /// side that the normal points to.
    #[verifier::when_used_as_spec(signed_distance_to_spec)]
    pub fn signed_distance_to(&self, point: &Vec3<T>) -> (r: T)
        requires
            arithmetic_is_specified::<T>(),
            self.plane.signed_distance_to_req(point),
        ensures
            r == self.signed_distance_to_spec(point),
    {
        self.plane.signed_distance_to(point)
    }

    /// Whether the corners lie on the plane and wind one way.
    #[verifier::when_used_as_spec(is_valid_spec)]
    pub fn is_valid(&self) -> (r: bool)
        requires
            is_specified::<T>(),
            self.is_valid_req(),
        ensures
            r == self.is_valid_spec(),
    {
        let d0 = self.plane.signed_distance_to(&self.points[0]);
        let d1 = self.plane.signed_distance_to(&self.points[1]);
        let d2 = self.plane.signed_distance_to(&self.points[2]);
        let d3 = self.plane.signed_distance_to(&self.points[3]);
        let is_planar = is_zero(d0) && is_zero(d1) && is_zero(d2) && is_zero(d3);
        let edges = [
            self.points[1].minus(self.points[0]),
            self.points[2].minus(self.points[1]),
            self.points[3].minus(self.points[2]),
            self.points[0].minus(self.points[3]),
        ];
        let anchor = edges[3].cross(edges[0]);
        let turn0 = edges[0].cross(edges[1]).dot(anchor);
        let turn1 = edges[1].cross(edges[2]).dot(anchor);
        let turn2 = edges[2].cross(edges[3]).dot(anchor);
        let is_winding = !(turn0 < zero::<T>()) && !(turn1 < zero::<T>()) && !(turn2 < zero::<T>());
        is_planar && is_winding
    }

    /// Whether the polygon covers no area.
    #[verifier::when_used_as_spec(is_empty_spec)]
    pub fn is_empty(&self) -> (r: bool)
        requires
            is_specified::<T>(),
            self.is_empty_req(),
        ensures
            r == self.is_empty_spec(),
    {
        let d = self.points[0].minus(self.points[2]);
        let e = self.points[1].minus(self.points[3]);
        let first = d.dot(d);
        let second = e.dot(e);
        first < epsilon::<T>() || second < epsilon::<T>()
    }

    /// Whether all of `points` lie strictly on one side of the polygon's
    /// plane. Touching the plane is not being outside.
    pub fn are_outside(&self, points: &[Vec3<T>]) -> (r: bool)
        requires
            is_specified::<T>(),
            self.plane.are_outside_req(points@),
            points@.len() > 0,
        ensures
            r == self.plane.are_outside_spec(points@),
    {
        self.plane.are_outside(points)
    }

    /// Whether the other polygon lies in this polygon's plane: the two have
    /// the same normal and the same offset.
    pub fn contains(&self, other: &Self) -> (r: bool)
        requires
            comparison_is_specified::<T>(),
        ensures
            r == self.plane.contains_spec(&other.plane),
    {
        self.plane.contains(&other.plane)
    }

    /// The positions of the four corners along `vector`.
    #[verifier::when_used_as_spec(project_on_spec)]
    pub fn project_on(&self, vector: &Vec3<T>) -> (r: LineProjection<T>)
        requires
            arithmetic_is_specified::<T>(),
            self.project_on_req(vector),
        ensures
            r == self.project_on_spec(vector),
    {
        LineProjection {
            markers: [
                vector.dot(self.points[0]),
                vector.dot(self.points[1]),
                vector.dot(self.points[2]),
                vector.dot(self.points[3]),
            ],
        }
    }

    /// The line along which the two polygons pierce each other, if they do.
    #[verifier::when_used_as_spec(intersect_spec)]
    pub fn intersect(&self, other: &Self) -> (r: Option<Line<T>>)
        requires
            is_specified::<T>(),
            self.intersect_req(other),
        ensures
            r == self.intersect_spec(other),
    {
        let beside = self.are_outside(other.points.as_slice());
        let other_beside = other.are_outside(self.points.as_slice());
        if beside || other_beside {
            return None;
        }
        match self.plane.intersect(&other.plane) {
            None => None,
            Some(line) => {
                let self_proj = self.project_on(&line.dir);
                let other_proj = other.project_on(&line.dir);
                if self_proj.intersect(&other_proj) {
                    Some(line)
                } else {
                    None
                }
            },
        }
    }

    /// The crossing of `line` with the edge that starts at corner `i`.
    pub fn edge_cut(&self, line: &Line<T>, i: usize) -> (r: Option<Vec3<T>>)
        requires
            is_specified::<T>(),
            i < 4,
            self.edge_cut_req(line, i as int),
        ensures
            r == self.edge_cut_spec(line, i as int),
    {
        let a = self.points[i];
        let b = self.points[(i + 1) % 4];
        let pr = line.across(line.origin.minus(a));
        let pb = line.across(b.minus(a));
        let denom = pb.dot(pb);
        let t = pr.dot(pb) / denom;
        if denom > epsilon::<T>() && t > zero::<T>() && t < one::<T>() {
            Some(a.plus(b.minus(a).scale(t)))
        } else {
            None
        }
    }

    /// Splits the polygon along a line of its plane.
    ///
    /// The polygon keeps one piece and the others are returned; all of them
    /// have the polygon's plane and anchor. Where the line is not in the
    /// plane, or does not cross exactly two edges, the polygon stays as it is
    /// and nothing is returned.
    pub fn split(&mut self, line: &Line<T>) -> (r: (Option<Polygon<T, A>>, Option<Polygon<T, A>>))
        requires
            is_specified::<T>(),
            old(self).split_req(line),
        ensures
            (*final(self), r.0, r.1) == old(self).split_spec(line),
            final(self).plane == old(self).plane,
            final(self).anchor == old(self).anchor,
            r.0 matches Some(q) ==> q.plane == old(self).plane && q.anchor == old(self).anchor,
            r.1 matches Some(q) ==> q.plane == old(self).plane && q.anchor == old(self).anchor,
            r.1.is_some() ==> r.0.is_some(),
    {
        let slant = self.plane.normal.dot(line.dir);
        let height = self.plane.signed_distance_to(&line.origin);
        if !is_zero(slant) || !is_zero(height) {
            return (None, None);
        }
        let cuts = [
            self.edge_cut(line, 0),
            self.edge_cut(line, 1),
            self.edge_cut(line, 2),
            self.edge_cut(line, 3),
        ];
        let mut count: usize = 0;
        let mut first: usize = 0;
        let mut second: usize = 0;
        let mut i: usize = 0;
        while i < 4
            invariant
                i <= 4,
                count <= i,
                count as int == (if i > 0 && cuts[0].is_some() { 1int } else { 0 }) + (if i > 1
                    && cuts[1].is_some() { 1int } else { 0 }) + (if i > 2 && cuts[2].is_some() {
                    1int
                } else {
                    0
                }) + (if i > 3 && cuts[3].is_some() { 1int } else { 0 }),
                count >= 1 ==> first < i && cuts[first as int].is_some(),
                count >= 2 ==> first < second < i && cuts[second as int].is_some(),
                count > 0 ==> forall|j: int| 0 <= j < first ==> cuts[j].is_none(),
                count > 1 ==> forall|j: int| second < j < i ==> cuts[j].is_none(),
                count == 0 ==> forall|j: int| 0 <= j < i ==> cuts[j].is_none(),
            decreases 4 - i,
        {
            if cuts[i].is_some() {
                if count == 0 {
                    first = i;
                } else {
                    second = i;
                }
                count = count + 1;
            }
            i = i + 1;
        }
        if count != 2 {
            return (None, None);
        }
        assert(first as int == first_cut(cuts));
        assert(second as int == last_cut(cuts));
        let a = cuts[first].unwrap();
        let b = cuts[second].unwrap();
        let p = self.points;
        if second - first == 2 {
            let mut other_points = self.points;
            other_points[first] = a;
            other_points[(first + 3) % 4] = b;
            self.points[first + 1] = a;
            self.points[first + 2] = b;
            let poly = Polygon { points: other_points, plane: self.plane, anchor: self.anchor };
            assert(self.points =~= (if first == 0 {
                [p[0], a, b, p[3]]
            } else {
                [p[0], p[1], a, b]
            }));
            assert(other_points =~= (if first == 0 {
                [a, p[1], p[2], b]
            } else {
                [b, a, p[2], p[3]]
            }));
            (Some(poly), None)
        } else if second - first == 3 {
            let xpoints = [p[first + 1], p[first + 2], p[first + 3], b];
            let ypoints = [a, p[first + 1], b, b];
            self.points = [p[first], a, b, b];
            let poly1 = Polygon { points: xpoints, plane: self.plane, anchor: self.anchor };
            let poly2 = Polygon { points: ypoints, plane: self.plane, anchor: self.anchor };
            (Some(poly1), Some(poly2))
        } else {
            let xpoints = [b, p[(first + 2) % 4], p[(first + 3) % 4], p[first]];
            let ypoints = [p[first], a, b, b];
            self.points = [a, p[first + 1], b, b];
            let poly1 = Polygon { points: xpoints, plane: self.plane, anchor: self.anchor };
            let poly2 = Polygon { points: ypoints, plane: self.plane, anchor: self.anchor };
            (Some(poly1), Some(poly2))
        }
    }
}

/// `fragment` lies in the plane of one of the polygons of `input` and has
/// the anchor of that polygon.
pub open spec fn comes_from<T, A>(fragment: Polygon<T, A>, input: Seq<Polygon<T, A>>) -> bool {
    exists|j: int|
        0 <= j < input.len() && fragment.plane == (#[trigger] input[j]).plane && fragment.anchor
            == input[j].anchor
}

impl<T: Scalar, A: Copy> Polygon<T, A> {
    /// `point` is a corner of this polygon.
    pub open spec fn has_corner(&self, point: Vec3<T>) -> bool {
        point == self.points[0] || point == self.points[1] || point == self.points[2] || point
            == self.points[3]
    }

    /// `point` is a corner of this polygon or a crossing of `line` with one
    /// of its edges.
    pub open spec fn has_corner_or_cut(&self, line: &Line<T>, point: Vec3<T>) -> bool {
        ||| self.has_corner(point)
        ||| self.edge_cut_spec(line, 0) == Some(point)
        ||| self.edge_cut_spec(line, 1) == Some(point)
        ||| self.edge_cut_spec(line, 2) == Some(point)
        ||| self.edge_cut_spec(line, 3) == Some(point)
    }

    /// Every piece of a split has the plane and the anchor of the polygon
    /// that was split.
    pub proof fn lemma_split_keeps_plane_and_anchor(self, line: &Line<T>)
        ensures
            ({
                let (kept, first, second) = self.split_spec(line);
                &&& kept.plane == self.plane && kept.anchor == self.anchor
                &&& first matches Some(q) ==> q.plane == self.plane && q.anchor == self.anchor
                &&& second matches Some(q) ==> q.plane == self.plane && q.anchor == self.anchor
            }),
    {
    }

    /// Every corner of every piece of a split is a corner of the polygon
    /// that was split, or a crossing of the line with one of its edges.
    pub proof fn lemma_split_corners(self, line: &Line<T>, i: int)
        requires
            0 <= i < 4,
        ensures
            ({
                let (kept, first, second) = self.split_spec(line);
                &&& self.has_corner_or_cut(line, kept.points[i])
                &&& first matches Some(q) ==> self.has_corner_or_cut(line, q.points[i])
                &&& second matches Some(q) ==> self.has_corner_or_cut(line, q.points[i])
            }),
    {
    }

    /// No corner is lost in a split: every corner of the polygon is a corner
    /// of one of the pieces.
    pub proof fn lemma_split_keeps_corners(self, line: &Line<T>, i: int)
        requires
            0 <= i < 4,
        ensures
            ({
                let (kept, first, second) = self.split_spec(line);
                ||| kept.has_corner(self.points[i])
                ||| first matches Some(q) && q.has_corner(self.points[i])
                ||| second matches Some(q) && q.has_corner(self.points[i])
            }),
    {
    }
}

} // verus!
