use plane_split::scalar::{approx_eq, epsilon, is_zero, one, zero};
use plane_split::{Line, LineProjection, Plane, Polygon, Vec3};

fn v(x: f64, y: f64, z: f64) -> Vec3<f64> {
    Vec3::new(x, y, z)
}

fn square_z(z: f64) -> Polygon<f64, u32> {
    Polygon {
        points: [v(0.0, 0.0, z), v(1.0, 0.0, z), v(1.0, 1.0, z), v(0.0, 1.0, z)],
        plane: Plane { normal: v(0.0, 0.0, 1.0), offset: -z },
        anchor: 0,
    }
}

#[test]
fn constants_of_the_scalars() {
    assert_eq!(zero::<f64>(), 0.0);
    assert_eq!(one::<f64>(), 1.0);
    assert_eq!(epsilon::<f64>(), 1.0e-5);
    assert_eq!(zero::<f32>(), 0.0);
    assert_eq!(one::<f32>(), 1.0);
    assert_eq!(epsilon::<f32>(), 1.0e-5f32);
}

#[test]
fn is_zero_is_strict_at_the_tolerance() {
    assert!(is_zero(0.0f64));
    assert!(is_zero(9.0e-6f64));
    assert!(is_zero(-9.0e-6f64));
    assert!(!is_zero(1.0e-5f64));
    assert!(!is_zero(-1.0e-5f64));
    assert!(!is_zero(1.0f64));
    assert!(!is_zero(f64::NAN));
}

#[test]
fn approx_eq_compares_the_difference() {
    assert!(approx_eq(1.0f64, 1.000001));
    assert!(approx_eq(1.000001f64, 1.0));
    assert!(!approx_eq(1.0f64, 1.0001));
    assert!(!approx_eq(-1.0f64, 1.0));
}

#[test]
fn vector_arithmetic() {
    let a = v(1.0, 2.0, 3.0);
    let b = v(4.0, -5.0, 6.0);
    assert_eq!(a.plus(b), v(5.0, -3.0, 9.0));
    assert_eq!(a.minus(b), v(-3.0, 7.0, -3.0));
    assert_eq!(a.scale(2.0), v(2.0, 4.0, 6.0));
    assert_eq!(a.dot(b), 12.0);
    assert_eq!(a.cross(b), v(27.0, 6.0, -13.0));
    assert_eq!(b.cross(a), v(-27.0, -6.0, 13.0));
    assert_eq!(a.clone(), a);
}

#[test]
fn cross_of_axes_is_the_third_axis() {
    assert_eq!(v(1.0, 0.0, 0.0).cross(v(0.0, 1.0, 0.0)), v(0.0, 0.0, 1.0));
    assert_eq!(v(0.0, 1.0, 0.0).cross(v(0.0, 0.0, 1.0)), v(1.0, 0.0, 0.0));
    assert_eq!(v(0.0, 0.0, 1.0).cross(v(1.0, 0.0, 0.0)), v(0.0, 1.0, 0.0));
}

#[test]
fn line_validity_asks_for_a_unit_direction() {
    let unit = Line { origin: v(3.0, 4.0, 5.0), dir: v(0.0, 1.0, 0.0) };
    assert!(unit.is_valid());
    let slanted = Line { origin: v(0.0, 0.0, 0.0), dir: v(0.6, 0.0, 0.8) };
    assert!(slanted.is_valid());
    let long = Line { origin: v(0.0, 0.0, 0.0), dir: v(0.0, 2.0, 0.0) };
    assert!(!long.is_valid());
    let nil = Line { origin: v(0.0, 0.0, 0.0), dir: v(0.0, 0.0, 0.0) };
    assert!(!nil.is_valid());
}

#[test]
fn lines_match_when_they_are_the_same_points() {
    let a = Line { origin: v(0.0, 0.0, 0.0), dir: v(0.0, 1.0, 0.0) };
    let moved = Line { origin: v(0.0, 7.0, 0.0), dir: v(0.0, 1.0, 0.0) };
    let reversed = Line { origin: v(0.0, -2.0, 0.0), dir: v(0.0, -1.0, 0.0) };
    let beside = Line { origin: v(1.0, 0.0, 0.0), dir: v(0.0, 1.0, 0.0) };
    let turned = Line { origin: v(0.0, 0.0, 0.0), dir: v(1.0, 0.0, 0.0) };
    assert!(a.matches(&a));
    assert!(a.matches(&moved));
    assert!(moved.matches(&a));
    assert!(a.matches(&reversed));
    assert!(!a.matches(&beside));
    assert!(!a.matches(&turned));
}

#[test]
fn across_takes_the_part_along_the_line_away() {
    let line = Line { origin: v(0.0, 0.0, 0.0), dir: v(0.0, 2.0, 0.0) };
    assert_eq!(line.across(v(3.0, 5.0, -1.0)), v(3.0, 0.0, -1.0));
    let unit = Line { origin: v(9.0, 9.0, 9.0), dir: v(1.0, 0.0, 0.0) };
    assert_eq!(unit.across(v(3.0, 5.0, -1.0)), v(0.0, 5.0, -1.0));
}

#[test]
fn signed_distance_is_dot_plus_offset() {
    let plane = Plane { normal: v(0.0, 0.0, 1.0), offset: -1.0 };
    assert_eq!(plane.signed_distance_to(&v(5.0, 6.0, 3.0)), 2.0);
    assert_eq!(plane.signed_distance_to(&v(5.0, 6.0, 1.0)), 0.0);
    assert_eq!(plane.signed_distance_to(&v(5.0, 6.0, -1.0)), -2.0);
    let slanted = Plane { normal: v(0.6, 0.0, 0.8), offset: 0.5 };
    assert_eq!(slanted.signed_distance_to(&v(5.0, 1.0, 10.0)), 11.5);
    let poly = square_z(1.0);
    assert_eq!(poly.signed_distance_to(&v(0.0, 0.0, 4.0)), 3.0);
}

#[test]
fn signed_distance_sum_adds_the_four_corners() {
    let plane = Plane { normal: v(1.0, 0.0, 0.0), offset: -0.25 };
    assert_eq!(plane.signed_distance_sum_to(&square_z(0.0)), 1.0);
    let level = Plane { normal: v(0.0, 0.0, 1.0), offset: 0.0 };
    assert_eq!(level.signed_distance_sum_to(&square_z(2.0)), 8.0);
    assert_eq!(level.signed_distance_sum_to(&square_z(-0.5)), -2.0);
}

#[test]
fn are_outside_needs_one_strict_side() {
    let plane = Plane { normal: v(0.0, 0.0, 1.0), offset: 0.0 };
    let above = [v(0.0, 0.0, 1.0), v(1.0, 0.0, 2.0), v(0.0, 1.0, 0.5)];
    let below = [v(0.0, 0.0, -1.0), v(1.0, 0.0, -2.0), v(0.0, 1.0, -0.5)];
    let across = [v(0.0, 0.0, 1.0), v(1.0, 0.0, -2.0), v(0.0, 1.0, 0.5)];
    let touching = [v(0.0, 0.0, 1.0), v(1.0, 0.0, 0.0), v(0.0, 1.0, 0.5)];
    let touching_first = [v(0.0, 0.0, 0.0), v(1.0, 0.0, 1.0), v(0.0, 1.0, 0.5)];
    assert!(plane.are_outside(&above));
    assert!(plane.are_outside(&below));
    assert!(!plane.are_outside(&across));
    assert!(!plane.are_outside(&touching));
    assert!(!plane.are_outside(&touching_first));
    assert!(plane.are_outside(&above[..1]));
    assert!(plane.are_outside(&below[..1]));
    assert!(!plane.are_outside(&touching_first[..1]));
    let poly = square_z(0.0);
    assert!(poly.are_outside(&above));
    assert!(!poly.are_outside(&across));
}

#[test]
fn plane_contains_the_same_plane_only() {
    let a = Plane { normal: v(0.0, 0.0, 1.0), offset: -1.0 };
    let same = Plane { normal: v(0.0, 0.0, 1.0), offset: -1.0 };
    let shifted = Plane { normal: v(0.0, 0.0, 1.0), offset: -2.0 };
    let turned = Plane { normal: v(0.0, 1.0, 0.0), offset: -1.0 };
    assert!(a.contains(&same));
    assert!(!a.contains(&shifted));
    assert!(!a.contains(&turned));
    assert!(square_z(1.0).contains(&square_z(1.0)));
    assert!(!square_z(1.0).contains(&square_z(0.5)));
}

#[test]
fn planes_meet_in_the_cross_of_their_normals() {
    let a = Plane { normal: v(0.0, 0.0, 1.0), offset: -1.0 };
    let b = Plane { normal: v(1.0, 0.0, 0.0), offset: -0.5 };
    let line = a.intersect(&b).unwrap();
    assert_eq!(line.dir, v(0.0, 1.0, 0.0));
    assert_eq!(line.origin, v(0.5, 0.0, 1.0));
    let back = b.intersect(&a).unwrap();
    assert_eq!(back.dir, v(0.0, -1.0, 0.0));
    assert_eq!(back.origin, v(0.5, 0.0, 1.0));
}

#[test]
fn meeting_point_of_slanted_planes() {
    let a = Plane { normal: v(0.0, 0.0, 1.0), offset: -1.0 };
    let b = Plane { normal: v(0.6, 0.0, 0.8), offset: -2.0 };
    let line = a.intersect(&b).unwrap();
    assert!((line.origin.x - 2.0).abs() < 1.0e-12);
    assert_eq!(line.origin.y, 0.0);
    assert!((line.origin.z - 1.0).abs() < 1.0e-12);
    assert!(a.signed_distance_to(&line.origin).abs() < 1.0e-12);
    assert!(b.signed_distance_to(&line.origin).abs() < 1.0e-12);
    assert_eq!(line.dir, v(0.0, 0.6, 0.0));
}

#[test]
fn parallel_planes_do_not_meet() {
    let a = Plane { normal: v(0.0, 0.0, 1.0), offset: -1.0 };
    let b = Plane { normal: v(0.0, 0.0, 1.0), offset: -0.5 };
    let opposed = Plane { normal: v(0.0, 0.0, -1.0), offset: 3.0 };
    let nearly = Plane { normal: v(0.001, 0.0, 1.0), offset: 0.0 };
    assert!(a.intersect(&b).is_none());
    assert!(a.intersect(&a).is_none());
    assert!(a.intersect(&opposed).is_none());
    assert!(a.intersect(&nearly).is_none());
}

fn permutations(items: [f64; 4]) -> Vec<[f64; 4]> {
    let mut all = Vec::new();
    for a in 0..4 {
        for b in 0..4 {
            for c in 0..4 {
                for d in 0..4 {
                    if a != b && a != c && a != d && b != c && b != d && c != d {
                        all.push([items[a], items[b], items[c], items[d]]);
                    }
                }
            }
        }
    }
    all
}

#[test]
fn bounds_are_least_and_greatest_in_every_order() {
    let all = permutations([3.0, -1.0, 4.0, 2.0]);
    assert_eq!(all.len(), 24);
    for markers in all {
        assert_eq!(LineProjection { markers }.get_bounds(), (-1.0, 4.0));
    }
    for markers in permutations([2.0, 2.0, 5.0, 2.0]) {
        assert_eq!(LineProjection { markers }.get_bounds(), (2.0, 5.0));
    }
    assert_eq!(LineProjection { markers: [7.0f64; 4] }.get_bounds(), (7.0, 7.0));
}

#[test]
fn footprints_overlap_in_more_than_a_point() {
    let a = LineProjection { markers: [0.0, 1.0, 1.0, 0.0] };
    let touching = LineProjection { markers: [1.0, 2.0, 2.0, 1.0] };
    let apart = LineProjection { markers: [3.0, 2.0, 2.5, 3.0] };
    let over = LineProjection { markers: [0.5, 2.0, 2.0, 0.5] };
    let inside = LineProjection { markers: [0.25, 0.5, 0.75, 0.5] };
    assert!(!a.intersect(&touching));
    assert!(!a.intersect(&apart));
    assert!(a.intersect(&over));
    assert!(a.intersect(&inside));
    assert!(a.intersect(&a));
    assert_eq!(a.clone().markers, a.markers);
}

#[test]
fn footprint_overlap_is_symmetric() {
    let all = [
        LineProjection { markers: [0.0, 1.0, 1.0, 0.0] },
        LineProjection { markers: [1.0, 2.0, 2.0, 1.0] },
        LineProjection { markers: [3.0, 2.0, 2.5, 3.0] },
        LineProjection { markers: [0.5, 2.0, 2.0, 0.5] },
        LineProjection { markers: [-4.0, 0.25, 0.0, -1.0] },
        LineProjection { markers: [1.5, 1.5, 1.5, 1.5] },
    ];
    for a in all.iter() {
        for b in all.iter() {
            assert_eq!(a.intersect(b), b.intersect(a));
        }
    }
}

#[test]
fn project_on_takes_the_dot_with_each_corner() {
    let poly = square_z(2.0);
    assert_eq!(poly.project_on(&v(1.0, 0.0, 0.0)).markers, [0.0, 1.0, 1.0, 0.0]);
    assert_eq!(poly.project_on(&v(0.0, 3.0, 1.0)).markers, [2.0, 2.0, 5.0, 5.0]);
}

#[test]
fn polygon_validity() {
    assert!(square_z(0.0).is_valid());
    assert!(square_z(1.0).is_valid());
    let mut off_plane = square_z(1.0);
    off_plane.points[2] = v(1.0, 1.0, 1.5);
    assert!(!off_plane.is_valid());
    let mut wrong_offset = square_z(1.0);
    wrong_offset.plane.offset = 0.0;
    assert!(!wrong_offset.is_valid());
    let mut crossed = square_z(1.0);
    crossed.points = [v(0.0, 0.0, 1.0), v(1.0, 1.0, 1.0), v(1.0, 0.0, 1.0), v(0.0, 1.0, 1.0)];
    assert!(!crossed.is_valid());
    let mut triangle = square_z(1.0);
    triangle.points[3] = triangle.points[2];
    assert!(triangle.is_valid());
}

#[test]
fn polygon_is_empty_when_a_diagonal_vanishes() {
    assert!(!square_z(0.0).is_empty());
    let mut flat = square_z(0.0);
    flat.points[2] = flat.points[0];
    assert!(flat.is_empty());
    let mut flat_other = square_z(0.0);
    flat_other.points[3] = flat_other.points[1];
    assert!(flat_other.is_empty());
    let mut triangle = square_z(0.0);
    triangle.points[3] = triangle.points[2];
    assert!(!triangle.is_empty());
    let mut tiny = square_z(0.0);
    tiny.points = [v(0.0, 0.0, 0.0), v(0.001, 0.0, 0.0), v(0.001, 0.001, 0.0), v(0.0, 0.001, 0.0)];
    assert!(tiny.is_empty());
}

#[test]
fn bounds_pass_over_a_marker_that_does_not_compare() {
    // a marker that compares with nothing is never exchanged
    let (low, high) = LineProjection { markers: [f64::NAN, 1.0, 2.0, 3.0] }.get_bounds();
    assert!(low.is_nan());
    assert_eq!(high, 3.0);
    let (low, high) = LineProjection { markers: [1.0, f64::NAN, 2.0, 3.0] }.get_bounds();
    assert_eq!((low, high), (1.0, 3.0));
}

#[test]
fn scalar_of_counts_in_ones() {
    assert_eq!(plane_split::grid::scalar_of::<f64>(0), 0.0);
    assert_eq!(plane_split::grid::scalar_of::<f64>(1), 1.0);
    assert_eq!(plane_split::grid::scalar_of::<f32>(7), 7.0);
    assert_eq!(plane_split::grid::scalar_of::<u32>(12), 12);
}

#[test]
fn whole_numbers_are_scalars_too() {
    let a = Vec3::new(1i64, 2, 3);
    let b = Vec3::new(4i64, -5, 6);
    assert_eq!(a.dot(b), 12);
    assert_eq!(a.cross(b), Vec3::new(27, 6, -13));
    assert_eq!(LineProjection { markers: [3u8, 1, 4, 2] }.get_bounds(), (1, 4));
    let plane = Plane { normal: Vec3::new(0i32, 0, 1), offset: -1 };
    assert_eq!(plane.signed_distance_to(&Vec3::new(5, 6, 3)), 2);
}
