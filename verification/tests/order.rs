use euclid::default::{Transform3D, Vector3D};
use euclid::{point3, vec3, Angle};
use plane_split::{BspSplitter, Plane, Polygon, Splitter, Vec3, _make_grid};

fn v(x: f64, y: f64, z: f64) -> Vec3<f64> {
    Vec3::new(x, y, z)
}

fn unit(a: Vec3<f64>) -> Vec3<f64> {
    a.scale(1.0 / a.dot(a).sqrt())
}

/// What a viewer sees of the space: two directions across the view, and the
/// view itself, which points to the viewer.
struct Screen {
    right: Vec3<f64>,
    up: Vec3<f64>,
    view: Vec3<f64>,
}

impl Screen {
    fn new(view: Vec3<f64>) -> Self {
        let view = unit(view);
        let other = if view.x.abs() < 0.9 { v(1.0, 0.0, 0.0) } else { v(0.0, 1.0, 0.0) };
        let right = unit(view.cross(other));
        let up = view.cross(right);
        Screen { right, up, view }
    }

    fn flat(&self, p: Vec3<f64>) -> (f64, f64) {
        (p.dot(self.right), p.dot(self.up))
    }

    /// How near to the viewer the plane of `poly` is at a point of the
    /// screen; `None` for a polygon that the viewer sees from the side.
    fn nearness(&self, poly: &Polygon<f64, usize>, at: (f64, f64)) -> Option<f64> {
        let slope = poly.plane.normal.dot(self.view);
        if slope.abs() < 1.0e-6 {
            return None;
        }
        let foot = self.right.scale(at.0).plus(self.up.scale(at.1));
        Some(-poly.plane.signed_distance_to(&foot) / slope)
    }

    /// Whether a point of the screen lies well inside what the viewer sees
    /// of `poly`.
    fn covers(&self, poly: &Polygon<f64, usize>, at: (f64, f64)) -> bool {
        let mut sign = 0.0;
        for i in 0..4 {
            let a = self.flat(poly.points[i]);
            let b = self.flat(poly.points[(i + 1) % 4]);
            let edge = (b.0 - a.0, b.1 - a.1);
            let length = (edge.0 * edge.0 + edge.1 * edge.1).sqrt();
            if length < 1.0e-9 {
                continue;
            }
            let side = (edge.0 * (at.1 - a.1) - edge.1 * (at.0 - a.0)) / length;
            if side.abs() < 1.0e-3 {
                return false;
            }
            if sign == 0.0 {
                sign = side.signum();
            } else if sign != side.signum() {
                return false;
            }
        }
        sign != 0.0
    }

    /// Points of the screen inside what the viewer sees of `poly`.
    fn samples(&self, poly: &Polygon<f64, usize>) -> Vec<(f64, f64)> {
        let flat: Vec<(f64, f64)> = poly.points.iter().map(|p| self.flat(*p)).collect();
        let middle = (
            (flat[0].0 + flat[1].0 + flat[2].0 + flat[3].0) / 4.0,
            (flat[0].1 + flat[1].1 + flat[2].1 + flat[3].1) / 4.0,
        );
        let mut all = vec![middle];
        for corner in flat {
            for part in [0.25, 0.5, 0.75] {
                all.push((
                    middle.0 + (corner.0 - middle.0) * part,
                    middle.1 + (corner.1 - middle.1) * part,
                ));
            }
        }
        all
    }
}

/// The points of the screen at which the viewer sees two of the fragments,
/// and those among them at which the earlier fragment is the nearer: there
/// it hides the later one, though it is painted first.
fn count_hidden(fragments: &[Polygon<f64, usize>], view: Vec3<f64>) -> (usize, usize) {
    let screen = Screen::new(view);
    let mut compared = 0;
    let mut hidden = 0;
    for later in 0..fragments.len() {
        for earlier in 0..later {
            let a = &fragments[earlier];
            let b = &fragments[later];
            for at in screen.samples(a).into_iter().chain(screen.samples(b)) {
                if !screen.covers(a, at) || !screen.covers(b, at) {
                    continue;
                }
                if let (Some(first), Some(second)) = (screen.nearness(a, at), screen.nearness(b, at))
                {
                    compared += 1;
                    if first > second + 1.0e-6 {
                        hidden += 1;
                    }
                }
            }
        }
    }
    (compared, hidden)
}

fn views() -> Vec<Vec3<f64>> {
    vec![
        v(0.0, 0.0, 1.0),
        v(0.0, 0.0, -1.0),
        v(1.0, 0.0, 0.0),
        v(0.3, -0.2, 1.0),
        v(-1.0, 2.0, 0.5),
        v(0.7, 0.7, -0.1),
    ]
}

#[test]
fn grid_is_painted_from_back_to_front() {
    for count in 1..4 {
        let grid = _make_grid::<f64>(count);
        let mut splitter = BspSplitter::new();
        for view in views() {
            let fragments = splitter.solve(&grid, view).to_vec();
            assert_eq!(fragments.len(), count + count * count + count * count * count);
            assert_eq!(count_hidden(&fragments, view).1, 0);
        }
    }
}

#[test]
fn layers_are_painted_from_back_to_front() {
    let mut layers = Vec::new();
    for (anchor, z) in [3.0, -1.0, 2.0, 0.0, 1.0].into_iter().enumerate() {
        layers.push(Polygon {
            points: [v(0.0, 0.0, z), v(1.0, 0.0, z), v(1.0, 1.0, z), v(0.0, 1.0, z)],
            plane: Plane { normal: v(0.0, 0.0, 1.0), offset: -z },
            anchor,
        });
    }
    let mut splitter = BspSplitter::new();
    for view in [v(0.0, 0.0, 1.0), v(0.0, 0.0, -1.0), v(0.3, -0.2, 1.0)] {
        let fragments = splitter.solve(&layers, view).to_vec();
        let (compared, hidden) = count_hidden(&fragments, view);
        assert!(compared > 0);
        assert_eq!(hidden, 0);
    }
}

#[test]
fn a_wrong_order_is_found_out() {
    let near = Polygon {
        points: [v(0.0, 0.0, 1.0), v(1.0, 0.0, 1.0), v(1.0, 1.0, 1.0), v(0.0, 1.0, 1.0)],
        plane: Plane { normal: v(0.0, 0.0, 1.0), offset: -1.0 },
        anchor: 0usize,
    };
    let mut far = near;
    for point in far.points.iter_mut() {
        point.z = 0.0;
    }
    far.plane.offset = 0.0;
    let screen = Screen::new(v(0.0, 0.0, 1.0));
    assert!(screen.covers(&near, screen.flat(v(0.5, 0.5, 1.0))));
    assert!(!screen.covers(&near, screen.flat(v(1.5, 0.5, 1.0))));
    assert_eq!(screen.nearness(&near, (0.0, 0.0)), Some(1.0));
    assert_eq!(screen.nearness(&far, (0.0, 0.0)), Some(0.0));
    let (compared, hidden) = count_hidden(&[far, near], v(0.0, 0.0, 1.0));
    assert!(compared > 0);
    assert_eq!(hidden, 0);
    let (compared, hidden) = count_hidden(&[near, far], v(0.0, 0.0, 1.0));
    assert!(compared > 0);
    assert_eq!(hidden, compared);
    let down = Screen::new(v(0.0, 0.0, -1.0));
    assert_eq!(down.nearness(&near, (0.0, 0.0)), Some(-1.0));
    assert_eq!(count_hidden(&[near, far], v(0.0, 0.0, -1.0)).1, 0);
}

/// Numbers between 0 and 1 that look scattered and are the same in every
/// run.
struct Scatter(u64);

impl Scatter {
    fn next(&mut self) -> f64 {
        self.0 = self.0.wrapping_mul(6364136223846793005).wrapping_add(1442695040888963407);
        ((self.0 >> 11) as f64) / ((1u64 << 53) as f64)
    }
}

fn scattered(count: usize, seed: u64) -> Vec<Polygon<f64, usize>> {
    let mut scatter = Scatter(seed);
    let mut polys = Vec::new();
    for anchor in 0..count {
        let axis: Vector3D<f64> =
            vec3(scatter.next() - 0.5, scatter.next() - 0.5, scatter.next() + 0.1).normalize();
        let turn: Transform3D<f64> =
            Transform3D::rotation(axis.x, axis.y, axis.z, Angle::radians(scatter.next() * 6.0))
                .then_translate(vec3(scatter.next(), scatter.next(), scatter.next()));
        let size = 0.5 + scatter.next();
        let corners = [
            point3(-size, -size, 0.0),
            point3(size, -size, 0.0),
            point3(size, size, 0.0),
            point3(-size, size, 0.0),
        ];
        let mut points = [Vec3::new(0.0, 0.0, 0.0); 4];
        for (point, corner) in points.iter_mut().zip(corners) {
            let moved = turn.transform_point3d(corner).unwrap();
            *point = Vec3::new(moved.x, moved.y, moved.z);
        }
        let n: Vector3D<f64> = turn.transform_vector3d(vec3(0.0, 0.0, 1.0)).normalize();
        let normal = Vec3::new(n.x, n.y, n.z);
        let offset = -points[0].dot(normal);
        polys.push(Polygon { points, plane: Plane { normal, offset }, anchor });
    }
    polys
}

#[test]
fn scattered_polygons_are_painted_from_back_to_front() {
    let mut compared = 0;
    for seed in 1..20u64 {
        let input = scattered(6, seed);
        let mut splitter = BspSplitter::new();
        for view in views() {
            let fragments = splitter.solve(&input, view).to_vec();
            let (seen, hidden) = count_hidden(&fragments, view);
            assert_eq!(hidden, 0);
            compared += seen;
        }
    }
    assert!(compared > 1000);
}
