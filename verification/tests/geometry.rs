//! Rings of corners and their normals.

use kinetics::physics::geometry::{
    compute_normals, rectangle_corner_ring, regular_polygon_corners, GeometryError,
};
use kinetics::physics::scalar::Scalar;
use kinetics::physics::vector::Vec2;

fn fx(x: f64) -> Scalar {
    Scalar::from_raw((x * 1e6).round() as i64)
}

fn v(x: f64, y: f64) -> Vec2 {
    Vec2::new(fx(x), fx(y))
}

fn raw(x: i64, y: i64) -> Vec2 {
    Vec2::new(Scalar::from_raw(x), Scalar::from_raw(y))
}

fn length(a: Vec2) -> f64 {
    ((a.x.raw() as f64 / 1e6).powi(2) + (a.y.raw() as f64 / 1e6).powi(2)).sqrt()
}

#[test]
fn regular_polygons_have_n_corners_and_unit_normals() {
    for n in 3..=64i64 {
        for radius in [0.001, 0.5, 1.0, 30.0, 60_000.0] {
            let corners = regular_polygon_corners(fx(radius), n);
            assert_eq!(corners.len() as i64, n);
            let normals = compute_normals(&corners).unwrap();
            assert_eq!(normals.len() as i64, n);
            for normal in normals.iter() {
                assert!((length(*normal) - 1.0).abs() < 1e-5, "n {} radius {}", n, radius);
            }
        }
    }
}

#[test]
fn regular_polygon_without_sides_is_empty() {
    assert_eq!(regular_polygon_corners(fx(1.0), 0).len(), 0);
    assert_eq!(regular_polygon_corners(fx(1.0), -5).len(), 0);
    assert_eq!(regular_polygon_corners(fx(1.0), i64::MIN).len(), 0);
}

#[test]
fn corners_lie_where_cosine_and_sine_put_them() {
    for n in [1i64, 2, 3, 5, 7, 8, 16, 17, 100, 360, 1001] {
        let corners = regular_polygon_corners(fx(1.0), n);
        for (k, corner) in corners.iter().enumerate() {
            let angle = 2.0 * std::f64::consts::PI * (k as f64) / (n as f64);
            assert!((corner.x.raw() as f64 - angle.cos() * 1e6).abs() <= 1.5, "{} of {}", k, n);
            assert!((corner.y.raw() as f64 - angle.sin() * 1e6).abs() <= 1.5, "{} of {}", k, n);
        }
    }
}

#[test]
fn corners_scale_with_the_radius() {
    let corners = regular_polygon_corners(fx(300.0), 12);
    for (k, corner) in corners.iter().enumerate() {
        let angle = 2.0 * std::f64::consts::PI * (k as f64) / 12.0;
        assert!((corner.x.raw() as f64 - 300.0 * angle.cos() * 1e6).abs() <= 400.0);
        assert!((corner.y.raw() as f64 - 300.0 * angle.sin() * 1e6).abs() <= 400.0);
    }
}

#[test]
fn the_sixteen_corners_of_a_unit_circle() {
    let corners = regular_polygon_corners(fx(1.0), 16);
    let expected = [
        (1_000_000, 0),
        (923_879, 382_683),
        (707_106, 707_106),
        (382_683, 923_879),
        (0, 1_000_000),
        (-382_683, 923_879),
        (-707_106, 707_106),
        (-923_879, 382_683),
        (-1_000_000, 0),
        (-923_879, -382_683),
        (-707_106, -707_106),
        (-382_683, -923_879),
        (0, -1_000_000),
        (382_683, -923_879),
        (707_106, -707_106),
        (923_879, -382_683),
    ];
    assert_eq!(corners.len(), 16);
    for k in 0..16 {
        assert_eq!(corners[k], raw(expected[k].0, expected[k].1), "corner {}", k);
    }
}

#[test]
fn the_corners_of_a_rectangle() {
    let corners = rectangle_corner_ring(fx(0.5), fx(0.25));
    assert_eq!(corners, vec![v(0.25, 0.125), v(-0.25, 0.125), v(-0.25, -0.125), v(0.25, -0.125)]);
    let odd = rectangle_corner_ring(Scalar::from_raw(5), Scalar::from_raw(-3));
    assert_eq!(odd, vec![raw(2, -1), raw(-2, -1), raw(-2, 1), raw(2, 1)]);
}

#[test]
fn the_normals_of_a_rectangle() {
    let corners = rectangle_corner_ring(fx(600.0), fx(60.0));
    let normals = compute_normals(&corners).unwrap();
    assert_eq!(normals, vec![v(0.0, -1.0), v(1.0, 0.0), v(0.0, 1.0), v(-1.0, 0.0)]);
}

#[test]
fn the_normals_of_a_triangle() {
    // edges (-3, 4), (0, -4), (3, 0); each turned a quarter turn to the left
    let corners = vec![v(3.0, 0.0), v(0.0, 4.0), v(0.0, 0.0)];
    let normals = compute_normals(&corners).unwrap();
    assert_eq!(normals, vec![v(-0.8, -0.6), v(1.0, 0.0), v(0.0, 1.0)]);
}

#[test]
fn fewer_than_three_corners_have_no_normals() {
    assert_eq!(compute_normals(&vec![]), Err(GeometryError::TooFewVertices));
    assert_eq!(compute_normals(&vec![v(1.0, 1.0)]), Err(GeometryError::TooFewVertices));
    assert_eq!(
        compute_normals(&vec![v(1.0, 1.0), v(2.0, 1.0)]),
        Err(GeometryError::TooFewVertices)
    );
}

#[test]
fn an_edge_without_length_is_named() {
    let twice = vec![v(0.0, 0.0), v(1.0, 0.0), v(1.0, 0.0), v(0.0, 1.0)];
    assert_eq!(compute_normals(&twice), Err(GeometryError::DegenerateEdge { index: 1 }));
    let closing = vec![v(0.0, 0.0), v(1.0, 0.0), v(1.0, 1.0), v(0.0, 0.0)];
    assert_eq!(compute_normals(&closing), Err(GeometryError::DegenerateEdge { index: 3 }));
    let several = vec![v(2.0, 2.0), v(2.0, 2.0), v(2.0, 2.0)];
    assert_eq!(compute_normals(&several), Err(GeometryError::DegenerateEdge { index: 0 }));
}

#[test]
fn edges_between_far_corners_have_unit_normals() {
    let corners = vec![raw(i64::MIN, i64::MIN), raw(i64::MAX, i64::MIN), raw(0, i64::MAX)];
    let normals = compute_normals(&corners).unwrap();
    assert_eq!(normals[0], v(0.0, 1.0));
    for normal in normals.iter() {
        assert!((length(*normal) - 1.0).abs() < 1e-5);
    }
}
