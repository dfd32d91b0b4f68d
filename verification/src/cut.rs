//! A polygon as a plane that partitions space: how it cuts another polygon.

use crate::bsp::BspPlane;
use crate::bsp::CutView;
use crate::bsp::PlaneCut;
use crate::plane::Plane;
use crate::polygon::comes_from;
use crate::polygon::Polygon;
use crate::scalar::is_specified;
use crate::scalar::is_zero;
use crate::scalar::is_zero_spec;
use crate::scalar::lawful;
use crate::scalar::Scalar;
use crate::scalar::tolerance_req;
use crate::scalar::zero;
use crate::scalar::zero_spec;
use crate::tree::cut_keeps;
use vstd::prelude::*;
use vstd::std_specs::cmp::PartialOrdIs;
use vstd::std_specs::ops::MulSpec;
use vstd::std_specs::ops::SubSpec;

verus! {

/// A sum of distances counts as positive: it is above zero and not zero
/// within the tolerance. What does not count as positive is behind.
pub open spec fn is_in_front_spec<T: Scalar>(dist: T) -> bool {
    !is_zero_spec(dist) && dist.is_gt(&zero_spec::<T>())
}

/// Whether a sum of distances counts as positive.
#[verifier::when_used_as_spec(is_in_front_spec)]
pub fn is_in_front<T: Scalar>(dist: T) -> (r: bool)
    requires
        is_specified::<T>(),
        tolerance_req::<T>(),
    ensures
        r == is_in_front_spec(dist),
{
    !is_zero(dist) && dist > zero::<T>()
}

/// The two lists of a cut once `piece` has been put on its side of
/// `plane`: in front where the sum of the distances of its corners counts
/// as positive, else behind. A piece that covers no area is left out.
pub open spec fn place_spec<T: Scalar, A: Copy>(
    plane: &Plane<T>,
    sides: (Seq<Polygon<T, A>>, Seq<Polygon<T, A>>),
    piece: Option<Polygon<T, A>>,
) -> (Seq<Polygon<T, A>>, Seq<Polygon<T, A>>) {
    match piece {
        None => sides,
        Some(part) => if part.is_empty_spec() {
            sides
        } else if is_in_front_spec(plane.signed_distance_sum_to_spec(&part)) {
            (sides.0.push(part), sides.1)
        } else {
            (sides.0, sides.1.push(part))
        },
    }
}

/// A polygon alone on one side of a cut.
pub open spec fn on_one_side<T, A>(poly: Polygon<T, A>, in_front: bool) -> CutView<Polygon<T, A>> {
    if in_front {
        CutView::Cut { front: seq![poly], back: Seq::empty() }
    } else {
        CutView::Cut { front: Seq::empty(), back: seq![poly] }
    }
}

/// Puts `piece` into `front` or `back`, on its side of `plane`, unless it
/// covers no area.
fn place<T: Scalar, A: Copy>(
    plane: &Plane<T>,
    front: &mut Vec<Polygon<T, A>>,
    back: &mut Vec<Polygon<T, A>>,
    piece: Option<Polygon<T, A>>,
)
    requires
        lawful::<T>(),
    ensures
        (final(front)@, final(back)@) == place_spec(plane, (old(front)@, old(back)@), piece),
{
    if let Some(part) = piece {
        if !part.is_empty() {
            if is_in_front(plane.signed_distance_sum_to(&part)) {
                front.push(part);
            } else {
                back.push(part);
            }
        }
    }
}

impl<T: Scalar, A: Copy> BspPlane for Polygon<T, A> {
    open spec fn lawful() -> bool {
        lawful::<T>()
    }

    /// The polygon `poly` as the plane of this polygon leaves it.
    ///
    /// Where the two planes are parallel, `poly` is a sibling if the
    /// difference of the offsets, `offset - (normal . normal') * offset'`, is
    /// zero within the tolerance, and else lies on the side that the sign of
    /// the difference gives. Where they meet and all corners of `poly` are
    /// strictly on one side, `poly` lies on the side that the sum of its
    /// distances gives. Otherwise `poly` is split along the line in which the
    /// planes meet, and each piece is put on its side.
    open spec fn cut_spec(&self, poly: Self) -> CutView<Self> {
        match self.plane.intersect_spec(&poly.plane) {
            None => {
                let dist = self.plane.offset.sub_spec(
                    self.plane.normal.dot_spec(poly.plane.normal).mul_spec(poly.plane.offset),
                );
                if is_zero_spec(dist) {
                    CutView::Sibling(poly)
                } else {
                    on_one_side(poly, is_in_front_spec(dist))
                }
            },
            Some(line) => {
                if self.plane.are_outside_spec(poly.points@) {
                    on_one_side(
                        poly,
                        is_in_front_spec(self.plane.signed_distance_sum_to_spec(&poly)),
                    )
                } else {
                    let (kept, first, second) = poly.split_spec(&line);
                    let sides = place_spec(
                        &self.plane,
                        place_spec(
                            &self.plane,
                            place_spec(&self.plane, (Seq::empty(), Seq::empty()), Some(kept)),
                            first,
                        ),
                        second,
                    );
                    CutView::Cut { front: sides.0, back: sides.1 }
                }
            },
        }
    }

    /// The normals of the two polygons point to the same side: their dot
    /// product is above zero.
    open spec fn is_aligned_spec(&self, other: &Self) -> bool {
        self.plane.normal.dot_spec(other.plane.normal).is_gt(&zero_spec::<T>())
    }

    fn cut(&self, poly: Self) -> (r: PlaneCut<Self>)
        ensures
            r@.all(|q: Self| q.plane == poly.plane && q.anchor == poly.anchor),
    {
        proof {
            self.lemma_cut_keeps_plane_and_anchor(poly);
        }
        let mut piece = poly;
        match self.plane.intersect(&piece.plane) {
            None => {
                let dist = self.plane.offset - self.plane.normal.dot(piece.plane.normal)
                    * piece.plane.offset;
                if is_zero(dist) {
                    PlaneCut::Sibling(piece)
                } else {
                    one_side(piece, is_in_front(dist))
                }
            },
            Some(line) => {
                if self.plane.are_outside(piece.points.as_slice()) {
                    let dist = self.plane.signed_distance_sum_to(&piece);
                    one_side(piece, is_in_front(dist))
                } else {
                    let (first, second) = piece.split(&line);
                    let mut front = Vec::new();
                    let mut back = Vec::new();
                    place(&self.plane, &mut front, &mut back, Some(piece));
                    place(&self.plane, &mut front, &mut back, first);
                    place(&self.plane, &mut front, &mut back, second);
                    PlaneCut::Cut { front, back }
                }
            },
        }
    }

    fn is_aligned(&self, other: &Self) -> (r: bool) {
        self.plane.normal.dot(other.plane.normal) > zero::<T>()
    }
}

/// The cut that has `poly` alone on one side.
fn one_side<T, A>(poly: Polygon<T, A>, in_front: bool) -> (r: PlaneCut<Polygon<T, A>>)
    ensures
        r@ == on_one_side(poly, in_front),
{
    let mut front = Vec::new();
    let mut back = Vec::new();
    if in_front {
        front.push(poly);
    } else {
        back.push(poly);
    }
    assert(front@ =~= (if in_front { seq![poly] } else { Seq::empty() }));
    assert(back@ =~= (if in_front { Seq::empty() } else { seq![poly] }));
    PlaneCut::Cut { front, back }
}

impl<T: Scalar, A: Copy> Polygon<T, A> {
    /// Every polygon that a cut leaves has the plane and the anchor of the
    /// polygon that was cut.
    pub proof fn lemma_cut_keeps_plane_and_anchor(self, poly: Self)
        ensures
            self.cut_spec(poly).all(|q: Self| q.plane == poly.plane && q.anchor == poly.anchor),
    {
        let p = |q: Self| q.plane == poly.plane && q.anchor == poly.anchor;
        match self.plane.intersect_spec(&poly.plane) {
            None => {},
            Some(line) => {
                if !self.plane.are_outside_spec(poly.points@) {
                    poly.lemma_split_keeps_plane_and_anchor(&line);
                    let (kept, first, second) = poly.split_spec(&line);
                    let s0 = (Seq::<Self>::empty(), Seq::<Self>::empty());
                    let s1 = place_spec(&self.plane, s0, Some(kept));
                    let s2 = place_spec(&self.plane, s1, first);
                    let s3 = place_spec(&self.plane, s2, second);
                    assert(forall|i: int| 0 <= i < s1.0.len() ==> p(#[trigger] s1.0[i]));
                    assert(forall|i: int| 0 <= i < s1.1.len() ==> p(#[trigger] s1.1[i]));
                    assert(forall|i: int| 0 <= i < s2.0.len() ==> p(#[trigger] s2.0[i]));
                    assert(forall|i: int| 0 <= i < s2.1.len() ==> p(#[trigger] s2.1[i]));
                    assert(forall|i: int| 0 <= i < s3.0.len() ==> p(#[trigger] s3.0[i]));
                    assert(forall|i: int| 0 <= i < s3.1.len() ==> p(#[trigger] s3.1[i]));
                }
            },
        }
    }

    /// A cut leaves only polygons that come from `input`, where the polygon
    /// that is cut comes from `input`.
    pub proof fn lemma_cut_keeps_source(input: Seq<Self>)
        ensures
            cut_keeps(|q: Self| comes_from(q, input)),
    {
        let p = |q: Self| comes_from(q, input);
        assert forall|plane: Self, other: Self| p(other) implies (#[trigger] plane.cut_spec(
            other,
        )).all(p) by {
            plane.lemma_cut_keeps_plane_and_anchor(other);
            let j = choose|j: int|
                0 <= j < input.len() && other.plane == (#[trigger] input[j]).plane && other.anchor
                    == input[j].anchor;
            match plane.cut_spec(other) {
                CutView::Sibling(value) => {
                    assert(value.plane == input[j].plane);
                },
                CutView::Cut { front, back } => {
                    assert forall|i: int| 0 <= i < front.len() implies p(#[trigger] front[i]) by {
                        assert(front[i].plane == input[j].plane);
                    }
                    assert forall|i: int| 0 <= i < back.len() implies p(#[trigger] back[i]) by {
                        assert(back[i].plane == input[j].plane);
                    }
                },
            }
        }
    }
}

} // verus!
