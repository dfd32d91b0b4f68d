//! What holds where the scalars compute exactly.
//!
//! The contracts of this crate say what is computed, operation by
//! operation, whatever the scalars are. The laws of this module say what
//! that is worth in a scalar type that is an ordered field: there a split
//! leaves pieces that lie in the plane of the polygon. In a floating-point
//! type the same holds up to rounding.

use crate::line::Line;
use crate::plane::Plane;
use crate::polygon::Polygon;
use crate::scalar::addition_commutes;
use crate::scalar::epsilon_spec;
use crate::scalar::is_zero_spec;
use crate::scalar::one_spec;
use crate::scalar::Scalar;
use crate::scalar::totally_ordered;
use crate::scalar::zero_spec;
use crate::vector::Vec3;
use vstd::prelude::*;
use vstd::std_specs::cmp::PartialOrdIs;
use vstd::std_specs::cmp::PartialOrdSpec;
use vstd::std_specs::ops::AddSpec;
use vstd::std_specs::ops::DivSpec;
use vstd::std_specs::ops::MulSpec;
use vstd::std_specs::ops::SubSpec;

verus! {

/// The scalars are an ordered field, as far as sums, differences and
/// products go: addition and multiplication commute and associate, zero
/// and one are neutral, subtraction undoes addition, multiplication
/// distributes over addition, and the order is total and is kept by adding
/// a scalar and by multiplying with a positive one.
#[verifier::opaque]
pub open spec fn is_ordered_field<T: Scalar>() -> bool {
    &&& totally_ordered::<T>()
    &&& forall|a: T, b: T| #[trigger] a.add_spec(b) == b.add_spec(a)
    &&& forall|a: T, b: T, c: T|
        #[trigger] a.add_spec(b).add_spec(c) == a.add_spec(b.add_spec(c))
    &&& forall|a: T| #[trigger] a.add_spec(zero_spec::<T>()) == a
    &&& forall|a: T, b: T| #[trigger] a.sub_spec(b).add_spec(b) == a
    &&& forall|a: T, b: T| #[trigger] a.add_spec(b).sub_spec(b) == a
    &&& forall|a: T, b: T| #[trigger] a.mul_spec(b) == b.mul_spec(a)
    &&& forall|a: T, b: T, c: T|
        #[trigger] a.mul_spec(b).mul_spec(c) == a.mul_spec(b.mul_spec(c))
    &&& forall|a: T| #[trigger] a.mul_spec(one_spec::<T>()) == a
    &&& forall|a: T, b: T, c: T|
        #[trigger] a.mul_spec(b.add_spec(c)) == a.mul_spec(b).add_spec(a.mul_spec(c))
    &&& forall|a: T, b: T, c: T|
        #![trigger a.add_spec(c), b.add_spec(c)]
        a.is_lt(&b) ==> a.add_spec(c).is_lt(&b.add_spec(c))
    &&& forall|a: T, b: T, c: T|
        #![trigger a.mul_spec(c), b.mul_spec(c)]
        a.is_lt(&b) && zero_spec::<T>().is_lt(&c) ==> a.mul_spec(c).is_lt(&b.mul_spec(c))
}

/// `a + b == b + a`.
proof fn lemma_add_comm<T: Scalar>(a: T, b: T)
    requires
        is_ordered_field::<T>(),
    ensures
        a.add_spec(b) == b.add_spec(a),
{
    reveal(is_ordered_field);
}

/// `(a + b) + c == a + (b + c)`.
proof fn lemma_add_assoc<T: Scalar>(a: T, b: T, c: T)
    requires
        is_ordered_field::<T>(),
    ensures
        a.add_spec(b).add_spec(c) == a.add_spec(b.add_spec(c)),
{
    reveal(is_ordered_field);
}

/// `a + 0 == a` and `0 + a == a`.
proof fn lemma_add_zero<T: Scalar>(a: T)
    requires
        is_ordered_field::<T>(),
    ensures
        a.add_spec(zero_spec::<T>()) == a,
        zero_spec::<T>().add_spec(a) == a,
{
    reveal(is_ordered_field);
}

/// `(a - b) + b == a` and `b + (a - b) == a`.
proof fn lemma_sub_add<T: Scalar>(a: T, b: T)
    requires
        is_ordered_field::<T>(),
    ensures
        a.sub_spec(b).add_spec(b) == a,
        b.add_spec(a.sub_spec(b)) == a,
{
    reveal(is_ordered_field);
}

/// `(a + b) - b == a`.
proof fn lemma_add_sub<T: Scalar>(a: T, b: T)
    requires
        is_ordered_field::<T>(),
    ensures
        a.add_spec(b).sub_spec(b) == a,
{
    reveal(is_ordered_field);
}

/// `a * b == b * a`.
proof fn lemma_mul_comm<T: Scalar>(a: T, b: T)
    requires
        is_ordered_field::<T>(),
    ensures
        a.mul_spec(b) == b.mul_spec(a),
{
    reveal(is_ordered_field);
}

/// `(a * b) * c == a * (b * c)`.
proof fn lemma_mul_assoc<T: Scalar>(a: T, b: T, c: T)
    requires
        is_ordered_field::<T>(),
    ensures
        a.mul_spec(b).mul_spec(c) == a.mul_spec(b.mul_spec(c)),
{
    reveal(is_ordered_field);
}

/// `a * 1 == a` and `1 * a == a`.
proof fn lemma_mul_one<T: Scalar>(a: T)
    requires
        is_ordered_field::<T>(),
    ensures
        a.mul_spec(one_spec::<T>()) == a,
        one_spec::<T>().mul_spec(a) == a,
{
    reveal(is_ordered_field);
}

/// `a * (b + c) == a * b + a * c` and `(b + c) * a == b * a + c * a`.
proof fn lemma_distribute<T: Scalar>(a: T, b: T, c: T)
    requires
        is_ordered_field::<T>(),
    ensures
        a.mul_spec(b.add_spec(c)) == a.mul_spec(b).add_spec(a.mul_spec(c)),
        b.add_spec(c).mul_spec(a) == b.mul_spec(a).add_spec(c.mul_spec(a)),
{
    reveal(is_ordered_field);
}

/// `a < b` gives `a + c < b + c` and `c + a < c + b`.
proof fn lemma_lt_add<T: Scalar>(a: T, b: T, c: T)
    requires
        is_ordered_field::<T>(),
        a.is_lt(&b),
    ensures
        a.add_spec(c).is_lt(&b.add_spec(c)),
        c.add_spec(a).is_lt(&c.add_spec(b)),
{
    reveal(is_ordered_field);
}

/// `a < b` and `0 < c` give `a * c < b * c`.
proof fn lemma_lt_mul<T: Scalar>(a: T, b: T, c: T)
    requires
        is_ordered_field::<T>(),
        a.is_lt(&b),
        zero_spec::<T>().is_lt(&c),
    ensures
        a.mul_spec(c).is_lt(&b.mul_spec(c)),
{
    reveal(is_ordered_field);
}

/// The order of an ordered field is total, and its addition commutes: what
/// holds of footprints in a total order holds in an ordered field.
pub proof fn lemma_total_order<T: Scalar>()
    requires
        is_ordered_field::<T>(),
    ensures
        totally_ordered::<T>(),
        addition_commutes::<T>(),
{
    reveal(is_ordered_field);
}

/// `(a + b) + (c + d) == (a + c) + (b + d)`.
proof fn lemma_add_swap<T: Scalar>(a: T, b: T, c: T, d: T)
    requires
        is_ordered_field::<T>(),
    ensures
        a.add_spec(b).add_spec(c.add_spec(d)) == a.add_spec(c).add_spec(b.add_spec(d)),
{
    // (a + b) + (c + d) == a + (b + (c + d)) == a + ((b + c) + d)
    lemma_add_assoc(a, b, c.add_spec(d));
    lemma_add_assoc(b, c, d);
    // b + c == c + b
    lemma_add_comm(b, c);
    // a + ((c + b) + d) == a + (c + (b + d)) == (a + c) + (b + d)
    lemma_add_assoc(c, b, d);
    lemma_add_assoc(a, c, b.add_spec(d));
}

/// `a - a == 0` and `0 * c == 0`.
proof fn lemma_zero<T: Scalar>(a: T, c: T)
    requires
        is_ordered_field::<T>(),
    ensures
        a.sub_spec(a) == zero_spec::<T>(),
        zero_spec::<T>().mul_spec(c) == zero_spec::<T>(),
        c.mul_spec(zero_spec::<T>()) == zero_spec::<T>(),
{
    let o = zero_spec::<T>();
    // (0 + a) - a == 0, and 0 + a == a
    lemma_add_sub(o, a);
    lemma_add_zero(a);
    // (0 + 0) * c == 0 * c + 0 * c, and 0 + 0 == 0
    lemma_add_zero(o);
    lemma_distribute(c, o, o);
    let x = o.mul_spec(c);
    assert(x.add_spec(x) == x);
    // (x + x) - x == x, and x - x == 0
    lemma_add_sub(x, x);
    lemma_add_sub(o, x);
    lemma_add_zero(x);
    lemma_mul_comm(o, c);
}

/// `(a - b) * c == a * c - b * c`.
proof fn lemma_mul_sub<T: Scalar>(a: T, b: T, c: T)
    requires
        is_ordered_field::<T>(),
    ensures
        a.sub_spec(b).mul_spec(c) == a.mul_spec(c).sub_spec(b.mul_spec(c)),
        c.mul_spec(a.sub_spec(b)) == c.mul_spec(a).sub_spec(c.mul_spec(b)),
{
    // ((a - b) + b) * c == (a - b) * c + b * c, and (a - b) + b == a
    lemma_sub_add(a, b);
    lemma_distribute(c, a.sub_spec(b), b);
    // ((a - b) * c + b * c) - b * c == (a - b) * c
    lemma_add_sub(a.sub_spec(b).mul_spec(c), b.mul_spec(c));
    lemma_mul_comm(c, a.sub_spec(b));
    lemma_mul_comm(c, a);
    lemma_mul_comm(c, b);
}

/// `a + b == c` gives `a == c - b`.
proof fn lemma_move<T: Scalar>(a: T, b: T, c: T)
    requires
        is_ordered_field::<T>(),
        a.add_spec(b) == c,
    ensures
        a == c.sub_spec(b),
{
    lemma_add_sub(a, b);
}

/// `(x + (y - x) * t) * n == x * n + (y * n - x * n) * t`.
proof fn lemma_blend_times<T: Scalar>(x: T, y: T, t: T, n: T)
    requires
        is_ordered_field::<T>(),
    ensures
        x.add_spec(y.sub_spec(x).mul_spec(t)).mul_spec(n) == x.mul_spec(n).add_spec(
            y.mul_spec(n).sub_spec(x.mul_spec(n)).mul_spec(t),
        ),
{
    let e = y.sub_spec(x);
    // (x + e * t) * n == x * n + (e * t) * n
    lemma_distribute(n, x, e.mul_spec(t));
    // (e * t) * n == e * (t * n) == e * (n * t) == (e * n) * t
    lemma_mul_assoc(e, t, n);
    lemma_mul_comm(t, n);
    lemma_mul_assoc(e, n, t);
    // e * n == y * n - x * n
    lemma_mul_sub(y, x, n);
}

/// `(p + b * t) + (q + c * t) == (p + q) + (b + c) * t`.
proof fn lemma_blend_plus<T: Scalar>(p: T, b: T, q: T, c: T, t: T)
    requires
        is_ordered_field::<T>(),
    ensures
        p.add_spec(b.mul_spec(t)).add_spec(q.add_spec(c.mul_spec(t))) == p.add_spec(q).add_spec(
            b.add_spec(c).mul_spec(t),
        ),
{
    lemma_add_swap(p, b.mul_spec(t), q, c.mul_spec(t));
    lemma_distribute(t, b, c);
}

/// `(q - p) + (s - r) == (q + s) - (p + r)`.
proof fn lemma_diff_plus<T: Scalar>(q: T, p: T, s: T, r: T)
    requires
        is_ordered_field::<T>(),
    ensures
        q.sub_spec(p).add_spec(s.sub_spec(r)) == q.add_spec(s).sub_spec(p.add_spec(r)),
{
    // ((q - p) + (s - r)) + (p + r) == ((q - p) + p) + ((s - r) + r) == q + s
    lemma_add_swap(q.sub_spec(p), s.sub_spec(r), p, r);
    lemma_sub_add(q, p);
    lemma_sub_add(s, r);
    lemma_move(q.sub_spec(p).add_spec(s.sub_spec(r)), p.add_spec(r), q.add_spec(s));
}

/// `(p + b * t) + o == (p + o) + b * t`, and `q - p == (q + o) - (p + o)`.
proof fn lemma_blend_offset<T: Scalar>(p: T, q: T, b: T, t: T, o: T)
    requires
        is_ordered_field::<T>(),
    ensures
        p.add_spec(b.mul_spec(t)).add_spec(o) == p.add_spec(o).add_spec(b.mul_spec(t)),
        q.sub_spec(p) == q.add_spec(o).sub_spec(p.add_spec(o)),
{
    // (p + bt) + o == p + (bt + o) == p + (o + bt) == (p + o) + bt
    lemma_add_assoc(p, b.mul_spec(t), o);
    lemma_add_comm(b.mul_spec(t), o);
    lemma_add_assoc(p, o, b.mul_spec(t));
    // (q - p) + (p + o) == ((q - p) + p) + o == q + o
    lemma_add_assoc(q.sub_spec(p), p, o);
    lemma_sub_add(q, p);
    lemma_move(q.sub_spec(p), p.add_spec(o), q.add_spec(o));
}

/// The distance of a point of the way from `a` to `b` is as far of the way
/// from the distance of `a` to that of `b`:
/// `d(a + (b - a) * t) == d(a) + (d(b) - d(a)) * t`.
pub proof fn lemma_distance_along_edge<T: Scalar>(plane: Plane<T>, a: Vec3<T>, b: Vec3<T>, t: T)
    requires
        is_ordered_field::<T>(),
    ensures
        plane.signed_distance_to_spec(&a.plus_spec(b.minus_spec(a).scale_spec(t)))
            == plane.signed_distance_to_spec(&a).add_spec(
            plane.signed_distance_to_spec(&b).sub_spec(plane.signed_distance_to_spec(&a)).mul_spec(
                t,
            ),
        ),
{
    let n = plane.normal;
    let o = plane.offset;
    let c = a.plus_spec(b.minus_spec(a).scale_spec(t));
    let px = a.x.mul_spec(n.x);
    let py = a.y.mul_spec(n.y);
    let pz = a.z.mul_spec(n.z);
    let qx = b.x.mul_spec(n.x);
    let qy = b.y.mul_spec(n.y);
    let qz = b.z.mul_spec(n.z);
    let bx = qx.sub_spec(px);
    let by = qy.sub_spec(py);
    let bz = qz.sub_spec(pz);
    lemma_blend_times(a.x, b.x, t, n.x);
    lemma_blend_times(a.y, b.y, t, n.y);
    lemma_blend_times(a.z, b.z, t, n.z);
    assert(c.x.mul_spec(n.x) == px.add_spec(bx.mul_spec(t)));
    assert(c.y.mul_spec(n.y) == py.add_spec(by.mul_spec(t)));
    assert(c.z.mul_spec(n.z) == pz.add_spec(bz.mul_spec(t)));
    lemma_blend_plus(px, bx, py, by, t);
    lemma_blend_plus(px.add_spec(py), bx.add_spec(by), pz, bz, t);
    lemma_diff_plus(qx, px, qy, py);
    lemma_diff_plus(qx.add_spec(qy), px.add_spec(py), qz, pz);
    let sp = a.dot_spec(n);
    let sq = b.dot_spec(n);
    assert(c.dot_spec(n) == sp.add_spec(sq.sub_spec(sp).mul_spec(t)));
    lemma_blend_offset(sp, sq, sq.sub_spec(sp), t, o);
}

/// `a < b` and `b < c` give `a < c`; `a < b` rules out `b < a` and `a == b`.
proof fn lemma_lt<T: Scalar>(a: T, b: T, c: T)
    requires
        is_ordered_field::<T>(),
        a.is_lt(&b),
    ensures
        b.is_lt(&c) ==> a.is_lt(&c),
        !b.is_lt(&a),
        a != b,
{
    lemma_total_order::<T>();
    assert(a.partial_cmp_spec(&b) is Some);
    assert(b.partial_cmp_spec(&a) is Some);
    assert(b.partial_cmp_spec(&c) is Some);
    assert(c.partial_cmp_spec(&b) is Some);
    assert(a.partial_cmp_spec(&c) is Some);
    assert(c.partial_cmp_spec(&a) is Some);
    assert(a.is_lt(&b) <==> b.is_gt(&a));
    assert(b.is_lt(&a) <==> a.is_gt(&b));
    if b.is_lt(&c) {
        assert(b.is_lt(&c) <==> c.is_gt(&b));
        assert(a.is_le(&b) && b.is_le(&c));
        assert(a.is_le(&c));
        if a == c {
            assert(c.is_lt(&b));
        }
    }
}

/// Of two scalars one is below the other, or they are the same.
proof fn lemma_compare<T: Scalar>(a: T, b: T)
    requires
        is_ordered_field::<T>(),
    ensures
        a.is_lt(&b) || a == b || b.is_lt(&a),
{
    lemma_total_order::<T>();
    assert(a.partial_cmp_spec(&b) is Some);
    assert(b.partial_cmp_spec(&a) is Some);
    assert(b.is_lt(&a) <==> a.is_gt(&b));
}

/// `a < b` is `0 < b - a`, and is `a - b < 0`.
proof fn lemma_sign_of_difference<T: Scalar>(a: T, b: T)
    requires
        is_ordered_field::<T>(),
        a.is_lt(&b),
    ensures
        zero_spec::<T>().is_lt(&b.sub_spec(a)),
        a.sub_spec(b).is_lt(&zero_spec::<T>()),
{
    let o = zero_spec::<T>();
    let x = b.sub_spec(a);
    let y = a.sub_spec(b);
    lemma_sub_add(b, a);
    lemma_sub_add(a, b);
    lemma_add_zero(a);
    lemma_add_zero(b);
    lemma_lt(a, b, a);
    lemma_compare(o, x);
    if x.is_lt(&o) {
        // x + a < 0 + a, that is b < a
        lemma_lt_add(x, o, a);
    }
    lemma_compare(y, o);
    if o.is_lt(&y) {
        // 0 + b < y + b, that is b < a
        lemma_lt_add(o, y, b);
    }
}

/// A point of the way from `u` to `v` lies between any bounds that `u` and
/// `v` lie between: with `lo < u < hi`, `lo < v < hi` and `0 < t < 1`,
/// `lo < u + (v - u) * t < hi`.
pub proof fn lemma_between<T: Scalar>(lo: T, hi: T, u: T, v: T, t: T)
    requires
        is_ordered_field::<T>(),
        lo.is_lt(&u) && u.is_lt(&hi),
        lo.is_lt(&v) && v.is_lt(&hi),
        zero_spec::<T>().is_lt(&t) && t.is_lt(&one_spec::<T>()),
    ensures
        lo.is_lt(&u.add_spec(v.sub_spec(u).mul_spec(t))),
        u.add_spec(v.sub_spec(u).mul_spec(t)).is_lt(&hi),
{
    let o = zero_spec::<T>();
    let i = one_spec::<T>();
    let x = v.sub_spec(u);
    let xt = x.mul_spec(t);
    let w = u.add_spec(xt);
    lemma_add_zero(u);
    lemma_sub_add(v, u);
    lemma_compare(u, v);
    if u == v {
        lemma_zero(u, t);
    } else if u.is_lt(&v) {
        lemma_sign_of_difference(u, v);
        // t * x < 1 * x, so x * t < x and u + x * t < u + x == v
        lemma_lt_mul(t, i, x);
        lemma_mul_comm(t, x);
        lemma_mul_one(x);
        lemma_lt_add(xt, x, u);
        lemma_lt(w, v, hi);
        // 0 * x < t * x, so u == u + 0 < u + x * t
        lemma_lt_mul(o, t, x);
        lemma_zero(u, x);
        lemma_lt_add(o, xt, u);
        lemma_lt(lo, u, w);
    } else {
        lemma_sign_of_difference(v, u);
        // x * t < 0 * t, so u + x * t < u + 0 == u
        lemma_lt_mul(x, o, t);
        lemma_zero(u, t);
        lemma_lt_add(xt, o, u);
        lemma_lt(w, u, hi);
        // with y = 1 - t > 0: x * y < 0 * y, and x * y == x - x * t,
        // so x < x * t and v == u + x < u + x * t
        let y = i.sub_spec(t);
        lemma_sign_of_difference(t, i);
        lemma_lt_mul(x, o, y);
        lemma_zero(u, y);
        lemma_mul_sub(i, t, x);
        lemma_mul_one(x);
        let d = x.sub_spec(xt);
        assert(x.mul_spec(y) == d);
        lemma_lt_add(d, o, xt);
        lemma_sub_add(x, xt);
        lemma_add_zero(xt);
        assert(x.is_lt(&xt));
        lemma_lt_add(x, xt, u);
        lemma_lt(lo, v, w);
    }
}

impl<T: Scalar, A: Copy> Polygon<T, A> {
    /// Where the scalars are an ordered field, a crossing of a line with an
    /// edge of a polygon whose corners lie in its plane lies in the plane
    /// too, within the same tolerance.
    pub proof fn lemma_edge_cut_is_planar(self, line: &Line<T>, i: int)
        requires
            is_ordered_field::<T>(),
            self.is_planar(),
            0 <= i < 4,
            self.edge_cut_spec(line, i) is Some,
        ensures
            is_zero_spec(self.plane.signed_distance_to_spec(&self.edge_cut_spec(line, i).unwrap())),
    {
        let a = self.points[i];
        let b = self.points[(i + 1) % 4];
        let pr = line.across_spec(line.origin.minus_spec(a));
        let pb = line.across_spec(b.minus_spec(a));
        let t = pr.dot_spec(pb).div_spec(pb.dot_spec(pb));
        let o = zero_spec::<T>();
        lemma_total_order::<T>();
        assert(o.partial_cmp_spec(&t) is Some);
        assert(o.is_lt(&t) <==> t.is_gt(&o));
        lemma_distance_along_edge(self.plane, a, b, t);
        lemma_between(
            o.sub_spec(epsilon_spec::<T>()),
            epsilon_spec::<T>(),
            self.plane.signed_distance_to_spec(&a),
            self.plane.signed_distance_to_spec(&b),
            t,
        );
    }

    /// Where the scalars are an ordered field, every piece of a split of a
    /// polygon whose corners lie in its plane has its corners in that plane,
    /// within the same tolerance.
    pub proof fn lemma_split_keeps_planar(self, line: &Line<T>)
        requires
            is_ordered_field::<T>(),
            self.is_planar(),
        ensures
            ({
                let (kept, first, second) = self.split_spec(line);
                &&& kept.is_planar()
                &&& first matches Some(q) ==> q.is_planar()
                &&& second matches Some(q) ==> q.is_planar()
            }),
    {
        let (kept, first, second) = self.split_spec(line);
        assert forall|point: Vec3<T>| self.has_corner_or_cut(line, point) implies is_zero_spec(
            #[trigger] self.plane.signed_distance_to_spec(&point),
        ) by {
            if self.edge_cut_spec(line, 0) == Some(point) {
                self.lemma_edge_cut_is_planar(line, 0);
            } else if self.edge_cut_spec(line, 1) == Some(point) {
                self.lemma_edge_cut_is_planar(line, 1);
            } else if self.edge_cut_spec(line, 2) == Some(point) {
                self.lemma_edge_cut_is_planar(line, 2);
            } else if self.edge_cut_spec(line, 3) == Some(point) {
                self.lemma_edge_cut_is_planar(line, 3);
            }
        }
        self.lemma_split_keeps_plane_and_anchor(line);
        self.lemma_split_corners(line, 0);
        self.lemma_split_corners(line, 1);
        self.lemma_split_corners(line, 2);
        self.lemma_split_corners(line, 3);
    }
}

} // verus!
