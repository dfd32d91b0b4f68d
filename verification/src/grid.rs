//! A grid of polygons to try a splitter on.

use crate::plane::Plane;
use crate::polygon::Polygon;
use crate::scalar::arithmetic_is_specified;
use crate::scalar::conversion_is_specified;
use crate::scalar::one;
use crate::scalar::one_spec;
use crate::scalar::Scalar;
use crate::scalar::zero;
use crate::scalar::zero_spec;
use crate::vector::Vec3;
use vstd::prelude::*;
use vstd::std_specs::ops::AddSpec;
use vstd::std_specs::ops::SubSpec;

verus! {

/// The scalar that counts `n`: zero with one added `n` times.
pub open spec fn count_spec<T: Scalar>(n: nat) -> T
    decreases n,
{
    if n == 0 {
        zero_spec::<T>()
    } else {
        count_spec::<T>((n - 1) as nat).add_spec(one_spec::<T>())
    }
}

/// The square of side `len` at the level `at` along one axis: along y for
/// `axis` 0, along x for 1, along z for 2. Its normal points up the axis,
/// its offset is `0 - at`, and its anchor is 1.
pub open spec fn grid_square<T: Scalar>(axis: int, at: T, len: T) -> Polygon<T, usize> {
    let o = zero_spec::<T>();
    let i = one_spec::<T>();
    let offset = o.sub_spec(at);
    if axis == 0 {
        Polygon {
            points: [
                Vec3 { x: o, y: at, z: o },
                Vec3 { x: len, y: at, z: o },
                Vec3 { x: len, y: at, z: len },
                Vec3 { x: o, y: at, z: len },
            ],
            plane: Plane { normal: Vec3 { x: o, y: i, z: o }, offset },
            anchor: 1,
        }
    } else if axis == 1 {
        Polygon {
            points: [
                Vec3 { x: at, y: o, z: o },
                Vec3 { x: at, y: len, z: o },
                Vec3 { x: at, y: len, z: len },
                Vec3 { x: at, y: o, z: len },
            ],
            plane: Plane { normal: Vec3 { x: i, y: o, z: o }, offset },
            anchor: 1,
        }
    } else {
        Polygon {
            points: [
                Vec3 { x: o, y: o, z: at },
                Vec3 { x: len, y: o, z: at },
                Vec3 { x: len, y: len, z: at },
                Vec3 { x: o, y: len, z: at },
            ],
            plane: Plane { normal: Vec3 { x: o, y: o, z: i }, offset },
            anchor: 1,
        }
    }
}

/// The grid of `count` squares across each axis: first those across y, at
/// the levels 0 to `count - 1`, then those across x, then those across z.
pub open spec fn grid_spec<T: Scalar>(count: nat) -> Seq<Polygon<T, usize>> {
    Seq::new(
        3 * count,
        |j: int|
            grid_square::<T>(
                j / count as int,
                count_spec::<T>((j % count as int) as nat),
                count_spec::<T>(count),
            ),
    )
}

/// No operation of a grid of `count` fails: one can be added to every
/// level below `count`, and every level below `count` taken from zero.
pub open spec fn grid_req<T: Scalar>(count: nat) -> bool {
    forall|k: nat|
        k < count ==> (#[trigger] count_spec::<T>(k)).add_req(one_spec::<T>())
            && zero_spec::<T>().sub_req(count_spec::<T>(k))
}

/// The scalar that counts `n`.
pub fn scalar_of<T: Scalar>(n: usize) -> (r: T)
    requires
        arithmetic_is_specified::<T>(),
        conversion_is_specified::<T>(),
        forall|k: nat| k < n ==> (#[trigger] count_spec::<T>(k)).add_req(one_spec::<T>()),
    ensures
        r == count_spec::<T>(n as nat),
{
    let mut r: T = zero::<T>();
    let mut i: usize = 0;
    while i < n
        invariant
            arithmetic_is_specified::<T>(),
        conversion_is_specified::<T>(),
            forall|k: nat| k < n ==> (#[trigger] count_spec::<T>(k)).add_req(one_spec::<T>()),
            i <= n,
            r == count_spec::<T>(i as nat),
        decreases n - i,
    {
        r = r + one::<T>();
        i = i + 1;
    }
    r
}

/// One square of the grid.
fn square<T: Scalar>(axis: usize, at: T, len: T) -> (r: Polygon<T, usize>)
    requires
        arithmetic_is_specified::<T>(),
        conversion_is_specified::<T>(),
        zero_spec::<T>().sub_req(at),
        axis < 3,
    ensures
        r == grid_square::<T>(axis as int, at, len),
{
    let o = zero::<T>();
    let i = one::<T>();
    let offset = o - at;
    if axis == 0 {
        Polygon {
            points: [
                Vec3 { x: o, y: at, z: o },
                Vec3 { x: len, y: at, z: o },
                Vec3 { x: len, y: at, z: len },
                Vec3 { x: o, y: at, z: len },
            ],
            plane: Plane { normal: Vec3 { x: o, y: i, z: o }, offset },
            anchor: 1,
        }
    } else if axis == 1 {
        Polygon {
            points: [
                Vec3 { x: at, y: o, z: o },
                Vec3 { x: at, y: len, z: o },
                Vec3 { x: at, y: len, z: len },
                Vec3 { x: at, y: o, z: len },
            ],
            plane: Plane { normal: Vec3 { x: i, y: o, z: o }, offset },
            anchor: 1,
        }
    } else {
        Polygon {
            points: [
                Vec3 { x: o, y: o, z: at },
                Vec3 { x: len, y: o, z: at },
                Vec3 { x: len, y: len, z: at },
                Vec3 { x: o, y: len, z: at },
            ],
            plane: Plane { normal: Vec3 { x: o, y: o, z: i }, offset },
            anchor: 1,
        }
    }
}

/// A grid of squares of side `count`: `count` of them across each of the
/// three axes, one at each whole level from 0 on.
pub fn _make_grid<T: Scalar>(count: usize) -> (r: Vec<Polygon<T, usize>>)
    requires
        arithmetic_is_specified::<T>(),
        conversion_is_specified::<T>(),
        grid_req::<T>(count as nat),
    ensures
        r@ == grid_spec::<T>(count as nat),
{
    let mut polys: Vec<Polygon<T, usize>> = Vec::new();
    let len: T = scalar_of::<T>(count);
    let mut axis: usize = 0;
    while axis < 3
        invariant
            arithmetic_is_specified::<T>(),
        conversion_is_specified::<T>(),
            grid_req::<T>(count as nat),
            axis <= 3,
            len == count_spec::<T>(count as nat),
            polys@.len() == axis * count,
            forall|j: int| 0 <= j < polys@.len() ==> polys@[j] == grid_spec::<T>(count as nat)[j],
        decreases 3 - axis,
    {
        let mut i: usize = 0;
        while i < count
            invariant
                arithmetic_is_specified::<T>(),
        conversion_is_specified::<T>(),
                grid_req::<T>(count as nat),
                axis < 3,
                i <= count,
                len == count_spec::<T>(count as nat),
                polys@.len() == axis * count + i,
                forall|j: int|
                    0 <= j < polys@.len() ==> polys@[j] == grid_spec::<T>(count as nat)[j],
            decreases count - i,
        {
            let at: T = scalar_of::<T>(i);
            polys.push(square(axis, at, len));
            proof {
                let j = axis * count + i;
                assert(j / count as int == axis && j % count as int == i) by (nonlinear_arith)
                    requires
                        j == axis * count + i,
                        0 <= i < count,
                        0 <= axis,
                ;
                assert(j < 3 * count) by (nonlinear_arith)
                    requires
                        j == axis * count + i,
                        0 <= i < count,
                        0 <= axis < 3,
                ;
            }
            i = i + 1;
        }
        proof {
            assert((axis + 1) * count == axis * count + count) by (nonlinear_arith);
        }
        axis = axis + 1;
    }
    assert(polys@ =~= grid_spec::<T>(count as nat));
    polys
}

} // verus!
