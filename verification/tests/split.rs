use euclid::default::{Point3D, Rect, Transform3D, Vector3D};
use euclid::{point2, size2, vec3, Angle};
use plane_split::{BspSplitter, NaiveSplitter, Plane, Polygon, Splitter, Vec3, _make_grid};
use std::f32::consts::FRAC_PI_4;

fn to_vec3(p: Point3D<f32>) -> Vec3<f32> {
    Vec3::new(p.x, p.y, p.z)
}

/// The polygon that a transform makes of a rectangle of the plane z = 0.
fn from_transformed_rect(
    rect: Rect<f32>,
    transform: Transform3D<f32>,
    anchor: usize,
) -> Polygon<f32, usize> {
    let corners = [
        point2(rect.min_x(), rect.min_y()),
        point2(rect.max_x(), rect.min_y()),
        point2(rect.max_x(), rect.max_y()),
        point2(rect.min_x(), rect.max_y()),
    ];
    let points = [
        to_vec3(transform.transform_point3d(corners[0].to_3d()).unwrap()),
        to_vec3(transform.transform_point3d(corners[1].to_3d()).unwrap()),
        to_vec3(transform.transform_point3d(corners[2].to_3d()).unwrap()),
        to_vec3(transform.transform_point3d(corners[3].to_3d()).unwrap()),
    ];
    let n: Vector3D<f32> = transform.transform_vector3d(vec3(0.0, 0.0, 1.0)).normalize();
    let normal = Vec3::new(n.x, n.y, n.z);
    let offset = -points[0].dot(normal);
    Polygon { points, plane: Plane { normal, offset }, anchor }
}

fn grid_impl<S: Splitter<f32, usize>>(count: usize, splitter: &mut S) {
    let polys = _make_grid::<f32>(count);
    let result = splitter.solve(&polys, Vec3::new(0.0, 0.0, 1.0));
    assert_eq!(result.len(), count + count * count + count * count * count);
}

#[test]
fn grid_naive() {
    grid_impl(2, &mut NaiveSplitter::new());
}

#[test]
fn grid_bsp() {
    grid_impl(2, &mut BspSplitter::new());
}

fn sort_impl<S: Splitter<f32, usize>>(splitter: &mut S) {
    let transform0: Transform3D<f32> =
        Transform3D::rotation(0.0, 1.0, 0.0, Angle::radians(-FRAC_PI_4));
    let transform1: Transform3D<f32> = Transform3D::rotation(0.0, 1.0, 0.0, Angle::radians(0.0));
    let transform2: Transform3D<f32> =
        Transform3D::rotation(0.0, 1.0, 0.0, Angle::radians(FRAC_PI_4));

    let rect: Rect<f32> = Rect::new(point2(-10.0, -10.0), size2(20.0, 20.0));
    let polys = [
        from_transformed_rect(rect, transform0, 0),
        from_transformed_rect(rect, transform1, 1),
        from_transformed_rect(rect, transform2, 2),
    ];

    let result = splitter.solve(&polys, Vec3::new(0.0, 0.0, -1.0));
    let ids: Vec<_> = result.iter().map(|poly| poly.anchor).collect();
    assert_eq!(&ids, &[2, 1, 0, 1, 2]);
}

#[test]
fn sort_bsp() {
    sort_impl(&mut BspSplitter::new());
}
