//! Projections and the separating axis test.

use kinetics::physics::entities::{BallEntity, PhysicsEntity, RectangleEntity};
use kinetics::physics::interactions::{project, test_collision};
use kinetics::physics::scalar::Scalar;
use kinetics::physics::vector::Vec2;

fn fx(x: f64) -> Scalar {
    Scalar::from_raw((x * 1e6).round() as i64)
}

fn v(x: f64, y: f64) -> Vec2 {
    Vec2::new(fx(x), fx(y))
}

fn ball(x: f64, y: f64, radius: f64) -> PhysicsEntity {
    PhysicsEntity::Ball(BallEntity::new(v(x, y), Vec2::zero(), fx(radius)).unwrap())
}

fn rect(x: f64, y: f64, width: f64, height: f64) -> PhysicsEntity {
    PhysicsEntity::Rectangle(
        RectangleEntity::new(v(x, y), Vec2::zero(), fx(width), fx(height)).unwrap(),
    )
}

#[test]
fn projection_finds_both_ends() {
    let corners = vec![v(1.0, 1.0), v(-2.0, 3.0), v(4.0, -5.0)];
    assert_eq!(project(&corners, &v(1.0, 0.0)), (fx(-2.0), fx(4.0)));
    assert_eq!(project(&corners, &v(0.0, 1.0)), (fx(-5.0), fx(3.0)));
    assert_eq!(project(&corners, &v(0.6, 0.8)), (fx(-1.6), fx(1.4)));
    assert_eq!(project(&corners, &v(0.0, 0.0)), (fx(0.0), fx(0.0)));
}

#[test]
fn projection_of_nothing_is_inside_out() {
    let (least, greatest) = project(&vec![], &v(1.0, 0.0));
    assert_eq!(least.raw(), i64::MAX);
    assert_eq!(greatest.raw(), i64::MIN);
}

#[test]
fn test_rectangle_collision() {
    let rect1 = rect(0.0, 0.0, 2.0, 2.0);
    let rect2 = rect(1.0, 0.0, 2.0, 2.0);
    let rect3 = rect(3.0, 0.0, 0.5, 0.5);
    assert!(test_collision(&rect1, &rect2).is_some());
    assert!(test_collision(&rect1, &rect3).is_none());
}

#[test]
fn test_rectangle_circle_collision() {
    let circ = ball(1.0, 0.0, 0.5);
    let rect1 = rect(0.0, 0.0, 0.25, 0.25);
    let rect2 = rect(1.5, 0.0, 0.5, 0.5);
    assert!(test_collision(&circ, &rect1).is_none());
    assert!(test_collision(&circ, &rect2).is_some());
    assert!(test_collision(&rect1, &circ).is_none());
    assert!(test_collision(&rect2, &circ).is_some());
}

#[test]
fn the_direction_of_least_overlap() {
    let middle = rect(0.0, 0.0, 2.0, 2.0);
    // on the normals of the first, in their order down, right, up, left,
    // the overlaps are 2, 1, 2, 3; the second normal stands for its opposite
    assert_eq!(test_collision(&middle, &rect(1.0, 0.0, 2.0, 2.0)), Some(v(-1.0, 0.0)));
    assert_eq!(test_collision(&middle, &rect(-1.0, 0.0, 2.0, 2.0)), Some(v(1.0, 0.0)));
    assert_eq!(test_collision(&middle, &rect(0.0, 1.5, 2.0, 2.0)), Some(v(0.0, -1.0)));
    assert_eq!(test_collision(&middle, &rect(0.0, -1.5, 2.0, 2.0)), Some(v(0.0, 1.0)));
}

#[test]
fn a_normal_of_the_second_body_stands_for_itself() {
    // a ball that reaches 0.5 into a wall: on the normals of the ball the
    // overlap is 2.4 or more, on the wall's normal to the right it is 0.5
    let round = ball(0.0, 0.0, 1.5);
    let wall = rect(2.0, 0.0, 2.0, 20.0);
    assert_eq!(test_collision(&round, &wall), Some(v(1.0, 0.0)));
}

#[test]
fn of_equal_overlaps_the_first_axis_stays() {
    // the same place: every axis has the overlap 2, and the first of the
    // first body is the one that points down
    let one = rect(0.0, 0.0, 2.0, 2.0);
    let other = rect(0.0, 0.0, 2.0, 2.0);
    assert_eq!(test_collision(&one, &other), Some(v(0.0, 1.0)));
    // diagonal: right and up overlap by 1.5 each; right comes first
    assert_eq!(test_collision(&one, &rect(0.5, 0.5, 2.0, 2.0)), Some(v(-1.0, 0.0)));
}

#[test]
fn rectangles_side_by_side_collide_up_to_the_sum_of_half_widths() {
    let widths = [0.5, 1.0, 2.0, 3.0, 60.0];
    for wa in widths {
        for wb in widths {
            let reach = wa / 2.0 + wb / 2.0;
            for (d, hit) in [
                (0.0, true),
                (reach / 2.0, true),
                (reach - 0.000001, true),
                (reach, true),
                (reach + 0.000001, false),
                (reach * 2.0, false),
                (reach + 5000.0, false),
            ] {
                for centre in [-300.0, 0.0, 17.25] {
                    for sign in [1.0, -1.0] {
                        let a = rect(centre, 4.0, wa, 1.0);
                        let b = rect(centre + sign * d, 4.0, wb, 7.0);
                        assert_eq!(
                            test_collision(&a, &b).is_some(),
                            hit,
                            "widths {} {} distance {}",
                            wa,
                            wb,
                            d
                        );
                        assert_eq!(test_collision(&b, &a).is_some(), hit);
                    }
                }
            }
        }
    }
}

#[test]
fn circles_collide_when_their_centres_are_close() {
    let radii = [0.5, 1.0, 6.0, 30.0];
    for r1 in radii {
        for r2 in radii {
            for step in 0..32 {
                let angle = std::f64::consts::PI * (step as f64) / 16.0;
                let (dx, dy) = (angle.cos(), angle.sin());
                let first = ball(0.0, 0.0, r1);
                // the polygon reaches the circle at its corners and stays
                // a fiftieth of the radius inside it between them
                let near = 0.98 * (r1 + r2);
                let close = ball(near * dx, near * dy, r2);
                assert!(test_collision(&first, &close).is_some(), "{} {} {}", r1, r2, step);
                let within = ball(0.5 * (r1 + r2) * dx, 0.5 * (r1 + r2) * dy, r2);
                assert!(test_collision(&first, &within).is_some());
                let far = 1.0001 * (r1 + r2);
                let apart = ball(far * dx, far * dy, r2);
                assert!(test_collision(&first, &apart).is_none(), "{} {} {}", r1, r2, step);
            }
        }
    }
}

#[test]
fn circles_along_an_axis_collide_below_the_sum_of_radii() {
    // corner against corner: the polygons reach as far as the circles
    let first = ball(0.0, 0.0, 1.0);
    assert!(test_collision(&first, &ball(2.4999, 0.0, 1.5)).is_some());
    assert!(test_collision(&first, &ball(2.5001, 0.0, 1.5)).is_none());
    assert!(test_collision(&first, &ball(0.0, -2.4999, 1.5)).is_some());
    assert!(test_collision(&first, &ball(0.0, -2.5001, 1.5)).is_none());
    assert!(test_collision(&first, &ball(-2.4999, 0.0, 1.5)).is_some());
    assert!(test_collision(&first, &ball(-2.5001, 0.0, 1.5)).is_none());
}

#[test]
fn a_shape_without_corners_touches_nothing_that_has_axes() {
    let mut empty = BallEntity::new(v(0.0, 0.0), Vec2::zero(), fx(1.0)).unwrap();
    empty.physics.vertices = vec![];
    empty.physics.axes = vec![];
    let empty = PhysicsEntity::Ball(empty);
    let solid = rect(0.0, 0.0, 2.0, 2.0);
    assert_eq!(test_collision(&empty, &solid), None);
    assert_eq!(test_collision(&solid, &empty), None);
}

#[test]
fn without_any_axis_nothing_separates() {
    let mut one = BallEntity::new(v(0.0, 0.0), Vec2::zero(), fx(1.0)).unwrap();
    one.physics.axes = vec![];
    let mut other = BallEntity::new(v(50.0, 0.0), Vec2::zero(), fx(1.0)).unwrap();
    other.physics.axes = vec![];
    let hit = test_collision(&PhysicsEntity::Ball(one), &PhysicsEntity::Ball(other));
    assert_eq!(hit, Some(Vec2::zero()));
}

#[test]
fn the_direction_of_a_contact_is_a_unit_vector() {
    let shapes = [
        ball(0.0, 0.0, 1.0),
        ball(1.2, 0.7, 1.5),
        rect(-0.5, 0.9, 2.0, 1.0),
        ball(-1.0, -1.0, 0.75),
        rect(0.3, -0.8, 0.5, 3.0),
    ];
    let mut contacts = 0;
    for one in shapes.iter() {
        for other in shapes.iter() {
            if let Some(mtv) = test_collision(one, other) {
                let square = (mtv.x.raw() as i128).pow(2) + (mtv.y.raw() as i128).pow(2);
                assert!(square <= 1_000_000_000_000);
                assert!(square >= 999_998i128 * 999_998);
                contacts += 1;
            }
            assert_eq!(
                test_collision(one, other).is_some(),
                test_collision(other, one).is_some()
            );
        }
    }
    assert!(contacts >= 15);
}
