use plane_split::debug::DebugLayer;
use plane_split::{BspSplitter, NaiveSplitter, Plane, Polygon, Splitter, Vec3, _make_grid};

fn v(x: f32, y: f32, z: f32) -> Vec3<f32> {
    Vec3::new(x, y, z)
}

/// The square of side 20 around the origin, turned about the y axis so that
/// its normal is `(sin, 0, cos)`.
fn turned(sin: f32, cos: f32, anchor: usize) -> Polygon<f32, usize> {
    Polygon {
        points: [
            v(-10.0 * cos, -10.0, 10.0 * sin),
            v(10.0 * cos, -10.0, -10.0 * sin),
            v(10.0 * cos, 10.0, -10.0 * sin),
            v(-10.0 * cos, 10.0, 10.0 * sin),
        ],
        plane: Plane { normal: v(sin, 0.0, cos), offset: 0.0 },
        anchor,
    }
}

fn three_turned() -> [Polygon<f32, usize>; 3] {
    let h = 0.5f32.sqrt();
    [turned(-h, h, 0), turned(0.0, 1.0, 1), turned(h, h, 2)]
}

fn anchors(polys: &[Polygon<f32, usize>]) -> Vec<usize> {
    polys.iter().map(|p| p.anchor).collect()
}

fn comes_from(fragment: &Polygon<f32, usize>, input: &[Polygon<f32, usize>]) -> bool {
    input.iter().any(|p| p.plane == fragment.plane && p.anchor == fragment.anchor)
}

#[test]
fn grid_is_count_squares_across_each_axis() {
    let grid = _make_grid::<f64>(2);
    assert_eq!(grid.len(), 6);
    let o = Vec3::new(0.0, 0.0, 0.0);
    assert_eq!(
        grid[0],
        Polygon {
            points: [
                o,
                Vec3::new(2.0, 0.0, 0.0),
                Vec3::new(2.0, 0.0, 2.0),
                Vec3::new(0.0, 0.0, 2.0),
            ],
            plane: Plane { normal: Vec3::new(0.0, 1.0, 0.0), offset: 0.0 },
            anchor: 1,
        }
    );
    assert_eq!(
        grid[1],
        Polygon {
            points: [
                Vec3::new(0.0, 1.0, 0.0),
                Vec3::new(2.0, 1.0, 0.0),
                Vec3::new(2.0, 1.0, 2.0),
                Vec3::new(0.0, 1.0, 2.0)
            ],
            plane: Plane { normal: Vec3::new(0.0, 1.0, 0.0), offset: -1.0 },
            anchor: 1,
        }
    );
    assert_eq!(
        grid[3],
        Polygon {
            points: [
                Vec3::new(1.0, 0.0, 0.0),
                Vec3::new(1.0, 2.0, 0.0),
                Vec3::new(1.0, 2.0, 2.0),
                Vec3::new(1.0, 0.0, 2.0)
            ],
            plane: Plane { normal: Vec3::new(1.0, 0.0, 0.0), offset: -1.0 },
            anchor: 1,
        }
    );
    assert_eq!(
        grid[5],
        Polygon {
            points: [
                Vec3::new(0.0, 0.0, 1.0),
                Vec3::new(2.0, 0.0, 1.0),
                Vec3::new(2.0, 2.0, 1.0),
                Vec3::new(0.0, 2.0, 1.0)
            ],
            plane: Plane { normal: Vec3::new(0.0, 0.0, 1.0), offset: -1.0 },
            anchor: 1,
        }
    );
    for poly in grid.iter() {
        assert!(poly.is_valid());
    }
    assert!(_make_grid::<f64>(0).is_empty());
    assert_eq!(_make_grid::<f32>(5).len(), 15);
}

#[test]
fn grid_of_three_splits_into_thirty_nine() {
    let polys = _make_grid::<f32>(3);
    let mut bsp = BspSplitter::new();
    assert_eq!(bsp.solve(&polys, v(0.0, 0.0, 1.0)).len(), 3 + 9 + 27);
    let mut naive = NaiveSplitter::new();
    assert_eq!(naive.solve(&polys, v(0.0, 0.0, 1.0)).len(), 3 + 9 + 27);
}

#[test]
fn bsp_order_turns_with_the_view() {
    let polys = three_turned();
    let mut splitter = BspSplitter::new();
    let towards = anchors(splitter.solve(&polys, v(0.0, 0.0, -1.0)));
    assert_eq!(towards, vec![2, 1, 0, 1, 2]);
    let away = anchors(splitter.solve(&polys, v(0.0, 0.0, 1.0)));
    assert_eq!(away, vec![2, 1, 0, 1, 2]);
    let from_the_side = anchors(splitter.solve(&polys, v(1.0, 0.0, 0.0)));
    assert_eq!(from_the_side, vec![1, 2, 0, 2, 1]);
}

#[test]
fn bsp_order_is_back_to_front_for_parallel_layers() {
    let mut layers = Vec::new();
    for (anchor, z) in [3.0f32, -1.0, 2.0, 0.0, 1.0].into_iter().enumerate() {
        layers.push(Polygon {
            points: [v(0.0, 0.0, z), v(1.0, 0.0, z), v(1.0, 1.0, z), v(0.0, 1.0, z)],
            plane: Plane { normal: v(0.0, 0.0, 1.0), offset: -z },
            anchor,
        });
    }
    let mut splitter = BspSplitter::new();
    // the viewer is up the z axis: the lowest layer is the farthest
    let seen_from_above = anchors(splitter.solve(&layers, v(0.0, 0.0, 1.0)));
    assert_eq!(seen_from_above, vec![1, 3, 4, 2, 0]);
    let seen_from_below = anchors(splitter.solve(&layers, v(0.0, 0.0, -1.0)));
    assert_eq!(seen_from_below, vec![0, 2, 4, 3, 1]);
}

#[test]
fn bsp_keeps_siblings_in_the_order_of_their_arrival() {
    let mut layers = Vec::new();
    for anchor in 0..4usize {
        layers.push(Polygon {
            points: [v(0.0, 0.0, 1.0), v(1.0, 0.0, 1.0), v(1.0, 1.0, 1.0), v(0.0, 1.0, 1.0)],
            plane: Plane { normal: v(0.0, 0.0, 1.0), offset: -1.0 },
            anchor,
        });
    }
    let mut splitter = BspSplitter::new();
    assert_eq!(anchors(splitter.solve(&layers, v(0.0, 0.0, 1.0))), vec![0, 1, 2, 3]);
    assert_eq!(anchors(splitter.solve(&layers, v(0.0, 0.0, -1.0))), vec![0, 1, 2, 3]);
}

#[test]
fn bsp_takes_polygons_one_by_one() {
    let polys = three_turned();
    let mut splitter = BspSplitter::new();
    assert!(splitter.sort(v(0.0, 0.0, -1.0)).is_empty());
    splitter.add(polys[0]);
    assert_eq!(anchors(splitter.sort(v(0.0, 0.0, -1.0))), vec![0]);
    splitter.add(polys[1]);
    assert_eq!(anchors(splitter.sort(v(0.0, 0.0, -1.0))), vec![1, 0, 1]);
    splitter.add(polys[2]);
    assert_eq!(anchors(splitter.sort(v(0.0, 0.0, -1.0))), vec![2, 1, 0, 1, 2]);
    assert_eq!(anchors(splitter.sort(v(0.0, 0.0, -1.0))), vec![2, 1, 0, 1, 2]);
    splitter.reset();
    assert!(splitter.sort(v(0.0, 0.0, -1.0)).is_empty());
}

#[test]
fn fragments_keep_plane_and_anchor() {
    let polys = three_turned();
    let mut bsp = BspSplitter::new();
    for fragment in bsp.solve(&polys, v(0.0, 0.0, -1.0)) {
        assert!(comes_from(fragment, &polys));
    }
    let mut naive = NaiveSplitter::new();
    for fragment in naive.solve(&polys, v(0.0, 0.0, -1.0)) {
        assert!(comes_from(fragment, &polys));
    }
}

#[test]
fn naive_leaves_the_first_polygon_whole() {
    let polys = three_turned();
    let mut splitter = NaiveSplitter::new();
    let result = splitter.solve(&polys, v(0.0, 0.0, -1.0));
    assert_eq!(anchors(result), vec![0, 1, 1, 2, 2]);
    assert_eq!(result[0], polys[0]);
}

#[test]
fn naive_returns_polygons_that_do_not_pierce_as_they_are() {
    let mut layers = Vec::new();
    for (anchor, z) in [3.0f32, -1.0, 2.0].into_iter().enumerate() {
        layers.push(Polygon {
            points: [v(0.0, 0.0, z), v(1.0, 0.0, z), v(1.0, 1.0, z), v(0.0, 1.0, z)],
            plane: Plane { normal: v(0.0, 0.0, 1.0), offset: -z },
            anchor,
        });
    }
    let mut splitter = NaiveSplitter::new();
    let result = splitter.solve(&layers, v(0.0, 0.0, 1.0)).to_vec();
    assert_eq!(result, layers);
    for a in 0..result.len() {
        for b in 0..result.len() {
            if a != b {
                assert!(result[a].intersect(&result[b]).is_none());
            }
        }
    }
}

#[test]
fn naive_takes_polygons_one_by_one() {
    let polys = three_turned();
    let mut splitter = NaiveSplitter::new();
    assert!(splitter.sort(v(0.0, 0.0, -1.0)).is_empty());
    splitter.add(polys[0]);
    splitter.add(polys[1]);
    assert_eq!(anchors(splitter.sort(v(0.0, 0.0, -1.0))), vec![0, 1, 1]);
    assert_eq!(anchors(splitter.get_all()), vec![0, 1, 1]);
    splitter.add(polys[2]);
    assert_eq!(anchors(splitter.get_all()), vec![0, 1, 1]);
    assert_eq!(anchors(splitter.sort(v(0.0, 0.0, -1.0))), vec![0, 1, 1, 2, 2]);
    assert_eq!(anchors(splitter.get_all()), vec![0, 1, 1, 2, 2]);
    splitter.reset();
    assert!(splitter.get_all().is_empty());
    assert!(splitter.sort(v(0.0, 0.0, -1.0)).is_empty());
}

#[test]
fn debug_layer_records_the_work() {
    let polys = three_turned();
    let mut layer = DebugLayer::new(BspSplitter::new());
    assert!(layer.dump().input().is_empty());
    assert!(layer.dump().output().is_empty());
    assert_eq!(layer.dump().view(), v(0.0, 0.0, 0.0));

    let view = v(0.0, 0.0, -1.0);
    let result = layer.solve(&polys, view).to_vec();
    assert_eq!(anchors(&result), vec![2, 1, 0, 1, 2]);
    assert_eq!(layer.dump().input(), &polys[..]);
    assert_eq!(layer.dump().view(), view);
    assert_eq!(layer.dump().output(), &result[..]);

    layer.add(polys[1]);
    assert_eq!(layer.dump().input().len(), 4);
    assert_eq!(layer.dump().output(), &result[..]);

    layer.reset();
    assert!(layer.dump().input().is_empty());
    assert!(layer.sort(view).is_empty());
    assert!(layer.dump().output().is_empty());
}

#[test]
fn debug_layer_gives_what_its_splitter_gives() {
    let polys = _make_grid::<f32>(2);
    let view = v(0.0, 0.0, 1.0);
    let mut plain = NaiveSplitter::new();
    let expected = plain.solve(&polys, view).to_vec();
    let mut layer = DebugLayer::new(NaiveSplitter::new());
    let result = layer.solve(&polys, view).to_vec();
    assert_eq!(result, expected);
    assert_eq!(result.len(), 14);
}
