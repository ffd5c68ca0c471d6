//! Collision response, gravitation, drag, motion, and whole ticks.

use kinetics::physics::constants::{BOUNCE, CIRCLE_SIDES, DRAG_DIVISOR, GRAVITY, SIDE_LENGTH};
use kinetics::physics::entities::{BallEntity, PhysicsEntity, RectangleEntity};
use kinetics::physics::interactions::{
    apply_drag, apply_gravity, collision_response, distance, drag, first_partner, grav_force,
    integrate, kinetic_physics, reflect, resolve_collisions, test_collision, total_force,
};
use kinetics::physics::scalar::Scalar;
use kinetics::physics::vector::Vec2;
use kinetics::rendering::scene::Scene;

fn fx(x: f64) -> Scalar {
    Scalar::from_raw((x * 1e6).round() as i64)
}

fn v(x: f64, y: f64) -> Vec2 {
    Vec2::new(fx(x), fx(y))
}

fn raw(x: i64, y: i64) -> Vec2 {
    Vec2::new(Scalar::from_raw(x), Scalar::from_raw(y))
}

fn ball(position: Vec2, velocity: Vec2, radius: f64, mass: f64, handle: u64) -> PhysicsEntity {
    let mut built = BallEntity::new(position, velocity, fx(radius)).unwrap();
    built.physics.mass = fx(mass);
    built.bevy.entity = Some(handle);
    PhysicsEntity::Ball(built)
}

fn wall(position: Vec2, width: f64, height: f64, handle: u64) -> PhysicsEntity {
    let mut built = RectangleEntity::new(position, Vec2::zero(), fx(width), fx(height)).unwrap();
    built.physics.mass = fx(0.0);
    built.physics.stationary = true;
    built.bevy.entity = Some(handle);
    PhysicsEntity::Rectangle(built)
}

fn scene_of(entities: Vec<PhysicsEntity>) -> Scene {
    Scene { entities }
}

#[test]
fn the_constants() {
    assert_eq!(SIDE_LENGTH, 600_000_000);
    assert_eq!(GRAVITY, 667_430);
    assert_eq!(BOUNCE, 1_330_000);
    assert_eq!(DRAG_DIVISOR, 25_000);
    assert_eq!(CIRCLE_SIDES, 16);
}

#[test]
fn gravity_is_the_constant_of_gravitation_times_ten_to_the_sixteenth() {
    let scaled = physical_constants::NEWTONIAN_CONSTANT_OF_GRAVITATION * 1e16;
    assert_eq!(scaled.round() as u128, GRAVITY);
}

#[test]
fn drag_divisor_is_the_reference_speed_squared_over_ten() {
    assert_eq!(500u128 * 500 / 10, DRAG_DIVISOR);
}

#[test]
fn reflection_mirrors_the_part_along_the_axis() {
    assert_eq!(reflect(v(3.0, -4.0), v(0.0, 1.0)), v(3.0, 4.0));
    assert_eq!(reflect(v(3.0, -4.0), v(0.0, -1.0)), v(3.0, 4.0));
    assert_eq!(reflect(v(3.0, -4.0), v(1.0, 0.0)), v(-3.0, -4.0));
    assert_eq!(reflect(v(3.0, -4.0), v(0.0, 0.0)), v(3.0, -4.0));
    // along (0.6, 0.8): dot -1.4, so v + 2.8 * (0.6, 0.8)
    assert_eq!(reflect(v(3.0, -4.0), v(0.6, 0.8)), v(4.68, -1.76));
}

#[test]
fn response_is_the_reflection_made_faster() {
    assert_eq!(collision_response(v(3.0, -4.0), v(0.0, 1.0)), v(3.99, 5.32));
    assert_eq!(collision_response(v(10.0, 10.0), v(-1.0, 0.0)), v(-13.3, 13.3));
    assert_eq!(collision_response(v(3.0, -4.0), v(0.0, 0.0)), v(3.99, -5.32));
}

#[test]
fn response_turns_the_part_along_the_axis_back() {
    let mut seed: u64 = 0x9e37_79b9_7f4a_7c15;
    let mut next = move || {
        seed ^= seed << 13;
        seed ^= seed >> 7;
        seed ^= seed << 17;
        seed
    };
    for _ in 0..2000 {
        let axis = raw(next() as i64 >> 20, next() as i64 >> 20).normalized();
        let axis = match axis {
            Some(axis) => axis,
            None => continue,
        };
        let velocity = raw((next() as i64) >> 24, (next() as i64) >> 24);
        let before = velocity.dot(axis).raw() as i128;
        let after = collision_response(velocity, axis).dot(axis).raw() as i128;
        let off = (100 * after + 133 * before).abs();
        assert!(1000 * off <= 1_000_000 + 2 * before.abs(), "{:?} {:?}", velocity, axis);
        if before >= 8 {
            assert!(after < 0);
        }
        if before <= -8 {
            assert!(after > 0);
        }
    }
}

#[test]
fn distance_test() {
    let a = v(0.0, 0.0);
    let b = v(1.0, 1.0);
    assert_eq!(distance(&a, &b).raw(), ((2.0_f64).powf(0.5) * 1e6) as i64);
    assert_eq!(distance(&v(1.0, 2.0), &v(4.0, 6.0)), fx(5.0));
    assert_eq!(distance(&v(4.0, 6.0), &v(1.0, 2.0)), fx(5.0));
    assert_eq!(distance(&b, &b), fx(0.0));
}

#[test]
fn gravitation_follows_the_inverse_square() {
    // 667430 * 1 * 200 / 720^2 = 257.4961419...
    let pull = grav_force(&fx(1.0), &fx(200.0), &v(0.0, 0.0), &v(720.0, 0.0));
    assert_eq!(pull, raw(257_496_141, 0));
    // 667430 * 2 * 5 / 25 = 266972, toward (3, 4)
    let slanted = grav_force(&fx(2.0), &fx(5.0), &v(1.0, 1.0), &v(4.0, 5.0));
    assert_eq!(slanted, v(160_183.2, 213_577.6));
    // the other body is pulled the other way as strongly
    let back = grav_force(&fx(5.0), &fx(2.0), &v(4.0, 5.0), &v(1.0, 1.0));
    assert_eq!(back, v(-160_183.2, -213_577.6));
}

#[test]
fn gravitation_of_nothing_is_nothing() {
    assert_eq!(grav_force(&fx(0.0), &fx(200.0), &v(0.0, 0.0), &v(720.0, 0.0)), Vec2::zero());
    assert_eq!(grav_force(&fx(1.0), &fx(0.0), &v(0.0, 0.0), &v(720.0, 0.0)), Vec2::zero());
}

#[test]
fn bodies_at_the_same_point_do_not_pull() {
    assert_eq!(grav_force(&fx(1.0), &fx(200.0), &v(3.0, 4.0), &v(3.0, 4.0)), Vec2::zero());
}

#[test]
fn gravitation_between_near_bodies_is_clamped() {
    let near = grav_force(&fx(1000.0), &fx(1000.0), &raw(0, 0), &raw(1, 0));
    assert_eq!(near, raw(i64::MAX, 0));
}

#[test]
fn drag_grows_with_the_square_of_the_speed() {
    // 10 * (500 / 500)^2 = 10 against (0.6, -0.8)
    assert_eq!(drag(v(300.0, -400.0)), v(6.0, -8.0));
    // 10 * (1000 / 500)^2 = 40
    assert_eq!(drag(v(600.0, -800.0)), v(24.0, -32.0));
    // |v| = 14.142135, so 10 * 14.142135 / 25000 = 0.005656...
    assert_eq!(drag(v(10.0, 10.0)), raw(5_656, 5_656));
    assert_eq!(drag(v(-10.0, 10.0)), raw(-5_656, 5_656));
}

#[test]
fn a_body_at_rest_has_no_drag() {
    assert_eq!(drag(v(0.0, 0.0)), Vec2::zero());
}

#[test]
fn first_partner_is_the_first_in_the_order_of_the_scene() {
    let bodies = vec![
        wall(v(2.0, 0.0), 2.0, 2.0, 1),
        wall(v(50.0, 0.0), 2.0, 2.0, 2),
        ball(v(0.0, 0.0), v(1.0, 0.0), 1.5, 1.0, 3),
        wall(v(-2.0, 0.0), 2.0, 2.0, 4),
    ];
    // the ball overlaps the walls at 2 and at -2; the one at 2 comes first
    assert_eq!(first_partner(&bodies, 2), test_collision(&bodies[2], &bodies[0]));
    assert!(first_partner(&bodies, 2).is_some());
    assert_eq!(first_partner(&bodies, 1), None);
    assert_eq!(first_partner(&bodies, 3), test_collision(&bodies[3], &bodies[2]));
    // a body alone does not meet itself
    let alone = vec![ball(v(0.0, 0.0), v(1.0, 0.0), 1.5, 1.0, 3)];
    assert_eq!(first_partner(&alone, 0), None);
}

#[test]
fn total_force_adds_the_pull_of_all_others() {
    let bodies = vec![
        ball(v(0.0, 0.0), Vec2::zero(), 1.0, 1.0, 1),
        ball(v(720.0, 0.0), Vec2::zero(), 1.0, 200.0, 2),
        ball(v(0.0, -720.0), Vec2::zero(), 1.0, 200.0, 3),
    ];
    assert_eq!(total_force(&bodies, 0), raw(257_496_141, -257_496_141));
    let alone = vec![ball(v(0.0, 0.0), Vec2::zero(), 1.0, 1.0, 1)];
    assert_eq!(total_force(&alone, 0), Vec2::zero());
}

#[test]
fn collisions_change_the_velocity_of_the_moving_body_only() {
    let mut scene = scene_of(vec![
        ball(v(0.0, 0.0), v(10.0, 10.0), 1.5, 1.0, 1),
        wall(v(2.0, 0.0), 2.0, 20.0, 2),
    ]);
    let mtv = test_collision(&scene.entities[0], &scene.entities[1]).unwrap();
    assert_eq!(mtv, v(1.0, 0.0));
    resolve_collisions(&mut scene);
    assert_eq!(scene.entities[0].velocity(), v(-13.3, 13.3));
    assert_eq!(scene.entities[0].position(), v(0.0, 0.0));
    assert_eq!(scene.entities[1].velocity(), Vec2::zero());
    assert_eq!(scene.entities[1].position(), v(2.0, 0.0));
}

#[test]
fn only_the_first_contact_is_resolved() {
    let mut scene = scene_of(vec![
        wall(v(0.0, -2.0), 20.0, 2.0, 1),
        ball(v(0.0, 0.0), v(10.0, -10.0), 1.5, 1.0, 2),
        wall(v(2.0, 0.0), 2.0, 20.0, 3),
    ]);
    resolve_collisions(&mut scene);
    // the floor comes first: the velocity is mirrored upward and not sideways
    assert_eq!(scene.entities[1].velocity(), v(13.3, 13.3));
}

#[test]
fn two_moving_bodies_both_respond() {
    let mut scene = scene_of(vec![
        ball(v(0.0, 0.0), v(1.0, 0.0), 1.0, 1.0, 1),
        ball(v(1.5, 0.0), v(-1.0, 0.0), 1.0, 1.0, 2),
    ]);
    let first = test_collision(&scene.entities[0], &scene.entities[1]).unwrap();
    let second = test_collision(&scene.entities[1], &scene.entities[0]).unwrap();
    resolve_collisions(&mut scene);
    assert_eq!(scene.entities[0].velocity(), collision_response(v(1.0, 0.0), first));
    assert_eq!(scene.entities[1].velocity(), collision_response(v(-1.0, 0.0), second));
}

#[test]
fn gravity_adds_force_over_mass_times_the_step() {
    let mut scene = scene_of(vec![
        ball(v(0.0, 0.0), v(1.0, 2.0), 1.0, 2.0, 1),
        ball(v(720.0, 0.0), v(5.0, 5.0), 1.0, 200.0, 2),
    ]);
    scene.entities[1].physics_mut().stationary = true;
    apply_gravity(&mut scene, fx(0.016));
    // force 667430 * 2 * 200 / 720^2 = 514.992283, over the mass 2, times 0.016
    assert_eq!(scene.entities[0].velocity(), raw(1_000_000 + 4_119_938, 2_000_000));
    assert_eq!(scene.entities[1].velocity(), v(5.0, 5.0));
    assert_eq!(scene.entities[0].position(), v(0.0, 0.0));
}

#[test]
fn a_body_without_mass_is_not_attracted() {
    let mut scene = scene_of(vec![
        ball(v(0.0, 0.0), v(1.0, 2.0), 1.0, 0.0, 1),
        ball(v(720.0, 0.0), v(5.0, 5.0), 1.0, 200.0, 2),
    ]);
    apply_gravity(&mut scene, fx(0.016));
    assert_eq!(scene.entities[0].velocity(), v(1.0, 2.0));
    // nor does it attract
    assert_eq!(scene.entities[1].velocity(), v(5.0, 5.0));
}

#[test]
fn drag_slows_every_moving_body() {
    let mut scene = scene_of(vec![
        ball(v(0.0, 0.0), v(300.0, -400.0), 1.0, 1.0, 1),
        ball(v(50.0, 0.0), v(0.0, 0.0), 1.0, 1.0, 2),
        wall(v(0.0, 90.0), 2.0, 2.0, 3),
    ]);
    scene.entities[2].set_velocity(v(300.0, -400.0));
    apply_drag(&mut scene);
    assert_eq!(scene.entities[0].velocity(), v(294.0, -392.0));
    assert_eq!(scene.entities[1].velocity(), v(0.0, 0.0));
    assert_eq!(scene.entities[2].velocity(), v(300.0, -400.0));
}

#[test]
fn motion_adds_velocity_times_the_step() {
    let mut scene = scene_of(vec![
        ball(v(1.0, 2.0), v(3.0, -4.0), 1.0, 1.0, 1),
        wall(v(0.0, 90.0), 2.0, 2.0, 2),
    ]);
    scene.entities[1].set_velocity(v(3.0, -4.0));
    integrate(&mut scene, fx(0.5));
    assert_eq!(scene.entities[0].position(), v(2.5, 0.0));
    assert_eq!(scene.entities[0].velocity(), v(3.0, -4.0));
    assert_eq!(scene.entities[1].position(), v(0.0, 90.0));
}

#[test]
fn a_body_that_nothing_draws_stays() {
    let mut built = BallEntity::new(v(1.0, 2.0), v(3.0, -4.0), fx(1.0)).unwrap();
    built.bevy.entity = None;
    let mut scene = scene_of(vec![PhysicsEntity::Ball(built)]);
    integrate(&mut scene, fx(0.5));
    assert_eq!(scene.entities[0].position(), v(1.0, 2.0));
    // collisions, gravitation and drag still act on it
    kinetic_physics(&mut scene, fx(0.5));
    assert_eq!(scene.entities[0].position(), v(1.0, 2.0));
    assert_eq!(scene.entities[0].velocity(), v(3.0, -4.0).minus(drag(v(3.0, -4.0))));
}

#[test]
fn a_tick_is_the_four_passes_in_order() {
    let start = || {
        scene_of(vec![
            ball(v(-6.0, 0.0), v(10.0, 10.0), 30.0, 1.0, 1),
            ball(v(0.0, 60.0), v(10.0, 10.0), 20.0, 1.0, 2),
            ball(v(0.0, -720.0), Vec2::zero(), 6.0, 200.0, 3),
            wall(v(270.0, 0.0), 60.0, 600.0, 4),
            ball(v(235.0, 100.0), v(40.0, 0.0), 10.0, 1.0, 5),
        ])
    };
    let dt = fx(1.0 / 64.0);
    let mut whole = start();
    whole.entities[2].physics_mut().stationary = true;
    let mut stepwise = start();
    stepwise.entities[2].physics_mut().stationary = true;
    for _ in 0..50 {
        kinetic_physics(&mut whole, dt);
        resolve_collisions(&mut stepwise);
        apply_gravity(&mut stepwise, dt);
        apply_drag(&mut stepwise);
        integrate(&mut stepwise, dt);
        for i in 0..5 {
            assert_eq!(whole.entities[i].position(), stepwise.entities[i].position());
            assert_eq!(whole.entities[i].velocity(), stepwise.entities[i].velocity());
        }
    }
}

#[test]
fn one_tick_of_a_ball_beside_a_wall() {
    let mut scene = scene_of(vec![
        ball(v(0.0, 0.0), v(300.0, 400.0), 1.5, 1.0, 1),
        wall(v(2.0, 0.0), 2.0, 20.0, 2),
    ]);
    kinetic_physics(&mut scene, fx(0.01));
    // collision: (300, 400) mirrored at the wall and made faster: (-399, 532)
    // gravitation: the wall has no mass
    // drag: |v| = 665, so (-399, 532) * 665 / 25000 = (-10.6134, 14.1512)
    // motion: 0.01 * (-388.3866, 517.8488)
    assert_eq!(scene.entities[0].velocity(), v(-388.3866, 517.8488));
    assert_eq!(scene.entities[0].position(), v(-3.883866, 5.178488));
    assert_eq!(scene.entities[1].position(), v(2.0, 0.0));
    assert_eq!(scene.entities[1].velocity(), Vec2::zero());
}

#[test]
fn stationary_bodies_never_change() {
    let mut scene = scene_of(vec![
        ball(v(-6.0, 0.0), v(10.0, 10.0), 30.0, 1.0, 1),
        ball(v(0.0, 30.0), v(-7.0, 2.0), 20.0, 200.0, 2),
        wall(v(20.0, 0.0), 60.0, 600.0, 3),
        wall(v(0.0, -40.0), 600.0, 60.0, 4),
    ]);
    scene.entities[1].physics_mut().stationary = true;
    scene.entities[3].physics_mut().mass = fx(50.0);
    scene.entities[3].set_velocity(v(1.0, 1.0));
    for step in 0..200 {
        kinetic_physics(&mut scene, fx(0.001 * (step % 7) as f64));
        assert_eq!(scene.entities[1].position(), v(0.0, 30.0));
        assert_eq!(scene.entities[1].velocity(), v(-7.0, 2.0));
        assert_eq!(scene.entities[2].position(), v(20.0, 0.0));
        assert_eq!(scene.entities[2].velocity(), Vec2::zero());
        assert_eq!(scene.entities[3].position(), v(0.0, -40.0));
        assert_eq!(scene.entities[3].velocity(), v(1.0, 1.0));
    }
    assert_ne!(scene.entities[0].position(), v(-6.0, 0.0));
    assert_eq!(scene.entities[0].vertices().len(), 16);
    assert_eq!(scene.entities.len(), 4);
}

#[test]
fn a_tick_of_no_length_moves_nothing() {
    let mut scene = scene_of(vec![
        ball(v(0.0, 0.0), v(300.0, 400.0), 1.5, 1.0, 1),
        wall(v(2.0, 0.0), 2.0, 20.0, 2),
        ball(v(100.0, 0.0), v(0.0, 0.0), 1.5, 5.0, 3),
        ball(v(200.0, 0.0), v(3.0, -4.0), 1.5, 5.0, 4),
    ]);
    kinetic_physics(&mut scene, Scalar::zero());
    assert_eq!(scene.entities[0].position(), v(0.0, 0.0));
    assert_eq!(scene.entities[1].position(), v(2.0, 0.0));
    assert_eq!(scene.entities[2].position(), v(100.0, 0.0));
    assert_eq!(scene.entities[3].position(), v(200.0, 0.0));
    // the ball at the wall is turned back, and drag slows it
    let turned = collision_response(v(300.0, 400.0), v(1.0, 0.0));
    assert_eq!(scene.entities[0].velocity(), turned.minus(drag(turned)));
    // a body at rest that touches nothing is unchanged, whatever pulls at it
    assert_eq!(scene.entities[2].velocity(), v(0.0, 0.0));
    // a body in motion loses its drag and nothing else
    assert_eq!(scene.entities[3].velocity(), v(3.0, -4.0).minus(drag(v(3.0, -4.0))));
}

#[test]
fn an_empty_scene_stays_empty() {
    let mut scene = Scene::new();
    kinetic_physics(&mut scene, fx(0.016));
    assert!(scene.entities.is_empty());
}
