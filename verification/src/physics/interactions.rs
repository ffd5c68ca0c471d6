//! How bodies act on each other: overlap tests, collision response,
//! gravitation, drag, and the tick that applies them in turn.

use vstd::prelude::*;
use crate::physics::constants::{BOUNCE, DRAG_DIVISOR, GRAVITY};
use crate::physics::entities::{PhysicsData, PhysicsEntity};
use crate::physics::roots::{floor_sqrt, isqrt};
use crate::physics::scalar::{
    difference_spec, product_spec, quotient, saturate, saturate_wide, Scalar, SCALE,
};
use crate::physics::vector::{
    dot_spec, length_spec, magnitude_of, squared_length, unit_spec, vector_difference,
    vector_negation, vector_over, vector_scaled, vector_sum, views, Vec2, Vector, SCALE_SQUARED,
};
use crate::rendering::scene::Scene;

verus! {

/// The least of `dot(axis, v)` over the corners `verts`; the greatest
/// representable value where there is no corner.
pub open spec fn least_projection(verts: Seq<Vector>, axis: Vector) -> int
    decreases verts.len(),
{
    if verts.len() == 0 {
        i64::MAX as int
    } else {
        let rest = least_projection(verts.drop_last(), axis);
        let last = dot_spec(axis, verts.last());
        if last < rest {
            last
        } else {
            rest
        }
    }
}

/// The greatest of `dot(axis, v)` over the corners `verts`; the least
/// representable value where there is no corner.
pub open spec fn greatest_projection(verts: Seq<Vector>, axis: Vector) -> int
    decreases verts.len(),
{
    if verts.len() == 0 {
        i64::MIN as int
    } else {
        let rest = greatest_projection(verts.drop_last(), axis);
        let last = dot_spec(axis, verts.last());
        if last > rest {
            last
        } else {
            rest
        }
    }
}

/// Whether the shadows of the two shapes on `axis` are apart. Shadows that
/// touch are not.
pub open spec fn separated_on(first: Seq<Vector>, second: Seq<Vector>, axis: Vector) -> bool {
    ||| greatest_projection(first, axis) < least_projection(second, axis)
    ||| greatest_projection(second, axis) < least_projection(first, axis)
}

/// How far the shadow of the first shape reaches past the start of the
/// shadow of the second on `axis`.
pub open spec fn overlap_on(first: Seq<Vector>, second: Seq<Vector>, axis: Vector) -> int {
    difference_spec(greatest_projection(first, axis), least_projection(second, axis))
}

/// The best axis found so far: its overlap and the direction it stands for.
pub struct Candidate {
    pub overlap: int,
    pub direction: Vector,
}

/// Before any axis is looked at: no direction, and an overlap that only a
/// smaller one replaces.
pub open spec fn no_candidate() -> Candidate {
    Candidate { overlap: i64::MAX as int, direction: Vector::zero() }
}

/// The direction that the axis `axis` stands for: its opposite where `flip`
/// is set.
pub open spec fn stands_for(axis: Vector, flip: bool) -> Vector {
    if flip {
        vector_negation(axis)
    } else {
        axis
    }
}

/// The candidate after the axes `axes` have been looked at in order,
/// starting from `start`; `None` as soon as one axis separates the shapes.
/// An axis replaces the candidate only with a strictly smaller overlap, and
/// stands for its opposite where `flip` is set.
pub open spec fn sweep(
    axes: Seq<Vector>,
    first: Seq<Vector>,
    second: Seq<Vector>,
    flip: bool,
    start: Option<Candidate>,
) -> Option<Candidate>
    decreases axes.len(),
{
    if axes.len() == 0 {
        start
    } else {
        match sweep(axes.drop_last(), first, second, flip, start) {
            None => None,
            Some(best) => {
                let axis = axes.last();
                if separated_on(first, second, axis) {
                    None
                } else if overlap_on(first, second, axis) < best.overlap {
                    Some(
                        Candidate {
                            overlap: overlap_on(first, second, axis),
                            direction: stands_for(axis, flip),
                        },
                    )
                } else {
                    Some(best)
                }
            },
        }
    }
}

/// The outcome of the separating axis test on two shapes, each given by
/// its edge normals and its corners in world coordinates. `None` where some
/// normal of either shape separates them. Otherwise the direction of least
/// overlap: the opposite of a normal of the first shape, or a normal of the
/// second; the first shape's normals come first, and of equal overlaps the
/// earliest stays. Where no normal improves on the start, the zero vector.
pub open spec fn collision_spec(
    first_axes: Seq<Vector>,
    first: Seq<Vector>,
    second_axes: Seq<Vector>,
    second: Seq<Vector>,
) -> Option<Vector> {
    match sweep(
        second_axes,
        first,
        second,
        false,
        sweep(first_axes, first, second, true, Some(no_candidate())),
    ) {
        None => None,
        Some(best) => Some(best.direction),
    }
}

/// The outcome of the separating axis test on two bodies.
pub open spec fn contact(first: PhysicsData, second: PhysicsData) -> Option<Vector> {
    collision_spec(first.normals(), first.world(), second.normals(), second.world())
}

/// The least and the greatest projection of a shape with corners bound
/// every projection of a corner, and each is the projection of some corner.
pub proof fn lemma_projection_extremes(verts: Seq<Vector>, axis: Vector)
    requires
        verts.len() > 0,
    ensures
        forall|i: int|
            0 <= i < verts.len() ==> least_projection(verts, axis) <= dot_spec(
                axis,
                #[trigger] verts[i],
            ) <= greatest_projection(verts, axis),
        exists|i: int|
            0 <= i < verts.len() && least_projection(verts, axis) == dot_spec(
                axis,
                #[trigger] verts[i],
            ),
        exists|i: int|
            0 <= i < verts.len() && greatest_projection(verts, axis) == dot_spec(
                axis,
                #[trigger] verts[i],
            ),
    decreases verts.len(),
{
    let front = verts.drop_last();
    let last = verts.len() - 1;
    assert(i64::MIN <= dot_spec(axis, verts[last]) <= i64::MAX);
    if front.len() == 0 {
        assert(least_projection(front, axis) == i64::MAX);
        assert(greatest_projection(front, axis) == i64::MIN);
        assert(least_projection(verts, axis) == dot_spec(axis, verts[last]));
        assert(greatest_projection(verts, axis) == dot_spec(axis, verts[last]));
    } else {
        lemma_projection_extremes(front, axis);
        let low = choose|i: int|
            0 <= i < front.len() && least_projection(front, axis) == dot_spec(
                axis,
                #[trigger] front[i],
            );
        let high = choose|i: int|
            0 <= i < front.len() && greatest_projection(front, axis) == dot_spec(
                axis,
                #[trigger] front[i],
            );
        assert(front[low] == verts[low]);
        assert(front[high] == verts[high]);
        assert forall|i: int| 0 <= i < verts.len() implies least_projection(verts, axis)
            <= dot_spec(axis, #[trigger] verts[i]) <= greatest_projection(verts, axis) by {
            if i < last {
                assert(front[i] == verts[i]);
            }
        }
        if dot_spec(axis, verts[last]) < least_projection(front, axis) {
            assert(least_projection(verts, axis) == dot_spec(axis, verts[last]));
        } else {
            assert(least_projection(verts, axis) == dot_spec(axis, verts[low]));
        }
        if dot_spec(axis, verts[last]) > greatest_projection(front, axis) {
            assert(greatest_projection(verts, axis) == dot_spec(axis, verts[last]));
        } else {
            assert(greatest_projection(verts, axis) == dot_spec(axis, verts[high]));
        }
    }
}

/// Once an axis has separated the shapes, no later axis brings them back.
pub proof fn lemma_sweep_stays_none(
    axes: Seq<Vector>,
    first: Seq<Vector>,
    second: Seq<Vector>,
    flip: bool,
)
    ensures
        sweep(axes, first, second, flip, None) is None,
    decreases axes.len(),
{
    if axes.len() > 0 {
        lemma_sweep_stays_none(axes.drop_last(), first, second, flip);
    }
}

/// A shape that is separated after some of the axes is separated after all.
pub proof fn lemma_sweep_prefix_none(
    axes: Seq<Vector>,
    k: int,
    first: Seq<Vector>,
    second: Seq<Vector>,
    flip: bool,
    start: Option<Candidate>,
)
    requires
        0 <= k <= axes.len(),
        sweep(axes.take(k), first, second, flip, start) is None,
    ensures
        sweep(axes, first, second, flip, start) is None,
    decreases axes.len() - k,
{
    if k < axes.len() {
        assert(axes.take(k + 1).drop_last() =~= axes.take(k));
        lemma_sweep_prefix_none(axes, k + 1, first, second, flip, start);
    } else {
        assert(axes.take(k) =~= axes);
    }
}

/// Projects the corners `verts` onto `axis` and returns the least and the
/// greatest projection.
pub fn project(verts: &Vec<Vec2>, axis: &Vec2) -> (r: (Scalar, Scalar))
    ensures
        r.0@ == least_projection(views(verts@), axis@),
        r.1@ == greatest_projection(views(verts@), axis@),
{
    let mut min = Scalar { raw: i64::MAX };
    let mut max = Scalar { raw: i64::MIN };
    let mut i: usize = 0;
    while i < verts.len()
        invariant
            0 <= i <= verts.len(),
            min@ == least_projection(views(verts@).take(i as int), axis@),
            max@ == greatest_projection(views(verts@).take(i as int), axis@),
        decreases verts.len() - i,
    {
        let proj = axis.dot(verts[i]);
        proof {
            let prefix = views(verts@).take(i as int + 1);
            assert(prefix.drop_last() =~= views(verts@).take(i as int));
            assert(prefix.last() == verts[i as int]@);
        }
        if proj.raw < min.raw {
            min = proj;
        }
        if proj.raw > max.raw {
            max = proj;
        }
        i += 1;
    }
    assert(views(verts@).take(verts.len() as int) =~= views(verts@));
    (min, max)
}

/// Looks at the axes `axes` in order, starting from the candidate given by
/// `overlap` and `direction`.
fn sweep_axes(
    axes: &Vec<Vec2>,
    verts1: &Vec<Vec2>,
    verts2: &Vec<Vec2>,
    flip: bool,
    overlap: Scalar,
    direction: Vec2,
) -> (r: Option<(Scalar, Vec2)>)
    ensures
        match r {
            Some((o, d)) => sweep(
                views(axes@),
                views(verts1@),
                views(verts2@),
                flip,
                Some(Candidate { overlap: overlap@, direction: direction@ }),
            ) == Some(Candidate { overlap: o@, direction: d@ }),
            None => sweep(
                views(axes@),
                views(verts1@),
                views(verts2@),
                flip,
                Some(Candidate { overlap: overlap@, direction: direction@ }),
            ) is None,
        },
{
    let ghost start = Some(Candidate { overlap: overlap@, direction: direction@ });
    let ghost all = views(axes@);
    let mut best_overlap = overlap;
    let mut best_direction = direction;
    let mut k: usize = 0;
    while k < axes.len()
        invariant
            0 <= k <= axes.len(),
            all == views(axes@),
            start == Some(Candidate { overlap: overlap@, direction: direction@ }),
            sweep(all.take(k as int), views(verts1@), views(verts2@), flip, start) == Some(
                Candidate { overlap: best_overlap@, direction: best_direction@ },
            ),
        decreases axes.len() - k,
    {
        let axis = axes[k];
        let (min1, max1) = project(verts1, &axis);
        let (min2, max2) = project(verts2, &axis);
        proof {
            assert(all.take(k as int + 1).drop_last() =~= all.take(k as int));
            assert(all.take(k as int + 1).last() == axis@);
        }
        if max1.raw < min2.raw || max2.raw < min1.raw {
            proof {
                lemma_sweep_prefix_none(
                    all,
                    k as int + 1,
                    views(verts1@),
                    views(verts2@),
                    flip,
                    start,
                );
            }
            return None;
        }
        let o = max1.minus(min2);
        if o.raw < best_overlap.raw {
            best_overlap = o;
            best_direction = if flip {
                axis.negated()
            } else {
                axis
            };
        }
        k += 1;
    }
    assert(all.take(axes.len() as int) =~= all);
    Some((best_overlap, best_direction))
}

/// Tests two bodies for overlap by the separating axis theorem. `None`
/// where some edge normal of either body separates them; otherwise the
/// direction of least overlap.
pub fn test_collision(obj_1: &PhysicsEntity, obj_2: &PhysicsEntity) -> (r: Option<Vec2>)
    ensures
        match r {
            Some(mtv) => contact(obj_1.data(), obj_2.data()) == Some(mtv@),
            None => contact(obj_1.data(), obj_2.data()) is None,
        },
{
    let axes1 = obj_1.get_axes();
    let axes2 = obj_2.get_axes();
    let verts1 = obj_1.translated_verts();
    let verts2 = obj_2.translated_verts();
    let start_overlap = Scalar { raw: i64::MAX };
    match sweep_axes(axes1, &verts1, &verts2, true, start_overlap, Vec2::zero()) {
        None => {
            proof {
                lemma_sweep_stays_none(
                    obj_2.data().normals(),
                    obj_1.data().world(),
                    obj_2.data().world(),
                    false,
                );
            }
            None
        },
        Some((overlap, direction)) => {
            match sweep_axes(axes2, &verts1, &verts2, false, overlap, direction) {
                None => None,
                Some((_, mtv)) => Some(mtv),
            }
        },
    }
}

/// The velocity `v` mirrored at the line across the direction `mtv`:
/// `v - (2 * dot(v, mtv)) * mtv`.
pub open spec fn reflect_spec(v: Vector, mtv: Vector) -> Vector {
    vector_difference(v, vector_scaled(mtv, product_spec(2 * SCALE, dot_spec(v, mtv))))
}

/// The velocity after a collision along `mtv`: mirrored, then made faster
/// by the bounce factor.
pub open spec fn response_spec(v: Vector, mtv: Vector) -> Vector {
    vector_scaled(reflect_spec(v, mtv), BOUNCE as int)
}

/// The raw distance between two points, rounded down.
pub open spec fn distance_spec(p1: Vector, p2: Vector) -> int {
    length_spec(vector_difference(p1, p2))
}

/// How strongly two masses attract each other across the offset `delta`:
/// `GRAVITY * m1 * m2 / |delta|^2`, rounded toward zero.
pub open spec fn pull_strength(m1: int, m2: int, delta: Vector) -> int
    recommends
        delta != Vector::zero(),
{
    saturate(quotient(GRAVITY * product_spec(m1, m2) * SCALE_SQUARED, squared_length(delta)))
}

/// The force on a mass `m1` at `p1` from a mass `m2` at `p2`: it points
/// from `p1` to `p2`. Masses at the same point exert no force on each other.
pub open spec fn pull_spec(m1: int, m2: int, p1: Vector, p2: Vector) -> Vector {
    let delta = vector_difference(p2, p1);
    match unit_spec(delta) {
        None => Vector::zero(),
        Some(toward) => vector_scaled(toward, pull_strength(m1, m2, delta)),
    }
}

/// One component of the drag on a body: the component `c` of its velocity
/// times its speed, over the drag divisor.
pub open spec fn drag_part(c: int, speed: int) -> int {
    saturate(quotient(c * speed, DRAG_DIVISOR * SCALE))
}

/// The drag on a body of velocity `v`: `v * |v| / DRAG_DIVISOR`, which is
/// ten times the square of the speed over 500, against the motion. A body
/// at rest has none.
pub open spec fn drag_spec(v: Vector) -> Vector {
    let speed = floor_sqrt(squared_length(v));
    Vector { x: drag_part(v.x, speed), y: drag_part(v.y, speed) }
}

/// Mirrors the velocity `v` at the line across `mtv`.
pub fn reflect(v: Vec2, mtv: Vec2) -> (r: Vec2)
    ensures
        r@ == reflect_spec(v@, mtv@),
{
    let twice = Scalar { raw: 2 * SCALE }.times(v.dot(mtv));
    v.minus(mtv.scaled(twice))
}

/// The velocity with which a body of velocity `v` leaves a collision along
/// `mtv`.
pub fn collision_response(v: Vec2, mtv: Vec2) -> (r: Vec2)
    ensures
        r@ == response_spec(v@, mtv@),
{
    reflect(v, mtv).scaled(Scalar { raw: BOUNCE })
}

/// The distance between two points.
pub fn distance(p1: &Vec2, p2: &Vec2) -> (r: Scalar)
    ensures
        r@ == distance_spec(p1@, p2@),
{
    p1.minus(*p2).length()
}

/// The force of gravitation on a point mass `m1` at `p1` from a point mass
/// `m2` at `p2`.
pub fn grav_force(m1: &Scalar, m2: &Scalar, p1: &Vec2, p2: &Vec2) -> (r: Vec2)
    ensures
        r@ == pull_spec(m1@, m2@, p1@, p2@),
{
    let delta = p2.minus(*p1);
    match delta.normalized() {
        None => Vec2::zero(),
        Some(toward) => {
            let masses = m1.times(*m2);
            let weight = magnitude_of(masses.raw);
            let squared = delta.length_squared();
            assert(667_430 * weight * 1_000_000_000_000 <= 667_430 * 0x8000_0000_0000_0000
                * 1_000_000_000_000) by (nonlinear_arith)
                requires
                    0 <= weight <= 0x8000_0000_0000_0000,
            ;
            assert(667_430 * weight <= 667_430 * 0x8000_0000_0000_0000) by (nonlinear_arith)
                requires
                    0 <= weight <= 0x8000_0000_0000_0000,
            ;
            let pull: u128 = GRAVITY * weight * SCALE_SQUARED;
            let q: u128 = pull / squared;
            assert(q <= pull) by (nonlinear_arith)
                requires
                    q == pull / squared,
                    squared >= 1,
            ;
            assert(GRAVITY * masses.raw * SCALE_SQUARED == pull || GRAVITY * masses.raw
                * SCALE_SQUARED == -pull) by (nonlinear_arith)
                requires
                    pull == GRAVITY * weight * SCALE_SQUARED,
                    weight == masses.raw || weight == -masses.raw,
            ;
            assert(masses.raw >= 0 <==> GRAVITY * masses.raw * SCALE_SQUARED >= 0)
                by (nonlinear_arith)
                requires
                    GRAVITY == 667_430,
                    SCALE_SQUARED == 1_000_000_000_000,
            ;
            let strength = if masses.raw >= 0 {
                saturate_wide(q as i128)
            } else {
                saturate_wide(-(q as i128))
            };
            toward.scaled(Scalar { raw: strength })
        },
    }
}

/// One component of the drag, from the component `c` of the velocity and
/// the speed.
fn drag_part_of(c: i64, speed: u64) -> (r: Scalar)
    ensures
        r@ == drag_part(c as int, speed as int),
{
    let m = magnitude_of(c);
    assert(m * speed <= 0x8000_0000_0000_0000 * 0xffff_ffff_ffff_ffff) by (nonlinear_arith)
        requires
            0 <= m <= 0x8000_0000_0000_0000,
            0 <= speed <= 0xffff_ffff_ffff_ffff,
    ;
    assert(c * speed == m * speed || c * speed == -(m * speed)) by (nonlinear_arith)
        requires
            m == c || m == -c,
    ;
    assert((c >= 0 ==> c * speed >= 0) && (c < 0 ==> c * speed <= 0)) by (nonlinear_arith)
        requires
            speed >= 0,
    ;
    let q: u128 = (m * (speed as u128)) / (DRAG_DIVISOR * (SCALE as u128));
    if c >= 0 {
        Scalar { raw: saturate_wide(q as i128) }
    } else {
        Scalar { raw: saturate_wide(-(q as i128)) }
    }
}

/// The drag on a body of velocity `v`.
pub fn drag(v: Vec2) -> (r: Vec2)
    ensures
        r@ == drag_spec(v@),
{
    let speed = isqrt(v.length_squared());
    Vec2 { x: drag_part_of(v.x.raw, speed), y: drag_part_of(v.y.raw, speed) }
}

/// The contact of body `i` with the first body from index `from` on, other
/// than itself, that it overlaps; `None` where it overlaps none of them.
pub open spec fn first_contact_from(bodies: Seq<PhysicsEntity>, i: int, from: int) -> Option<
    Vector,
>
    decreases bodies.len() - from,
{
    if from < 0 || from >= bodies.len() {
        None
    } else if from != i && contact(bodies[i].data(), bodies[from].data()) is Some {
        contact(bodies[i].data(), bodies[from].data())
    } else {
        first_contact_from(bodies, i, from + 1)
    }
}

/// The contact of body `i` with the first other body, in the order of the
/// scene, that it overlaps.
pub open spec fn first_contact(bodies: Seq<PhysicsEntity>, i: int) -> Option<Vector> {
    first_contact_from(bodies, i, 0)
}

/// Body `i` after collision response. A stationary body, and one that
/// overlaps no other, is unchanged. Any other leaves its first contact with
/// the response velocity; later contacts are not looked at.
pub open spec fn collided(bodies: Seq<PhysicsEntity>, i: int) -> PhysicsEntity {
    let me = bodies[i];
    if me.data().stationary {
        me
    } else {
        match first_contact(bodies, i) {
            Some(mtv) => me.with_velocity(response_spec(me.data().velocity@, mtv).to_vec2()),
            None => me,
        }
    }
}

/// The scene after collision response.
pub open spec fn after_collisions(bodies: Seq<PhysicsEntity>) -> Seq<PhysicsEntity> {
    Seq::new(bodies.len(), |i: int| collided(bodies, i))
}

/// The sum of the forces on body `i` from the bodies before index `upto`,
/// other than itself, added in the order of the scene.
pub open spec fn total_pull(bodies: Seq<PhysicsEntity>, i: int, upto: int) -> Vector
    decreases upto,
{
    if upto <= 0 {
        Vector::zero()
    } else {
        let before = total_pull(bodies, i, upto - 1);
        if upto - 1 == i {
            before
        } else {
            vector_sum(
                before,
                pull_spec(
                    bodies[i].data().mass@,
                    bodies[upto - 1].data().mass@,
                    bodies[i].data().position@,
                    bodies[upto - 1].data().position@,
                ),
            )
        }
    }
}

/// Body `i` after gravitation has acted for the time `dt`: its velocity
/// grows by the total force over its mass, times `dt`. A stationary body,
/// and one without mass, is unchanged.
pub open spec fn attracted(bodies: Seq<PhysicsEntity>, i: int, dt: int) -> PhysicsEntity {
    let me = bodies[i];
    if me.data().stationary || me.data().mass@ == 0 {
        me
    } else {
        me.with_velocity(
            vector_sum(
                me.data().velocity@,
                vector_scaled(
                    vector_over(total_pull(bodies, i, bodies.len() as int), me.data().mass@),
                    dt,
                ),
            ).to_vec2(),
        )
    }
}

/// The scene after gravitation has acted for the time `dt`.
pub open spec fn after_gravity(bodies: Seq<PhysicsEntity>, dt: int) -> Seq<PhysicsEntity> {
    Seq::new(bodies.len(), |i: int| attracted(bodies, i, dt))
}

/// A body after drag: a body that moves loses its drag from its velocity.
pub open spec fn dragged(me: PhysicsEntity) -> PhysicsEntity {
    if me.data().stationary {
        me
    } else {
        me.with_velocity(
            vector_difference(me.data().velocity@, drag_spec(me.data().velocity@)).to_vec2(),
        )
    }
}

/// The scene after drag.
pub open spec fn after_drag(bodies: Seq<PhysicsEntity>) -> Seq<PhysicsEntity> {
    Seq::new(bodies.len(), |i: int| dragged(bodies[i]))
}

/// A body after it has moved for the time `dt`: its position grows by its
/// velocity times `dt`. A stationary body stays, and so does one that no
/// element draws.
pub open spec fn advanced(me: PhysicsEntity, dt: int) -> PhysicsEntity {
    if me.data().stationary || me.render().entity is None {
        me
    } else {
        me.with_position(
            vector_sum(me.data().position@, vector_scaled(me.data().velocity@, dt)).to_vec2(),
        )
    }
}

/// The scene after every body has moved for the time `dt`.
pub open spec fn after_motion(bodies: Seq<PhysicsEntity>, dt: int) -> Seq<PhysicsEntity> {
    Seq::new(bodies.len(), |i: int| advanced(bodies[i], dt))
}

/// The scene after one tick of length `dt`: collision response, then
/// gravitation, then drag, then motion, each on the outcome of the one
/// before.
pub open spec fn tick(bodies: Seq<PhysicsEntity>, dt: int) -> Seq<PhysicsEntity> {
    after_motion(after_drag(after_gravity(after_collisions(bodies), dt)), dt)
}

/// Whether two bodies differ at most in their velocity.
pub open spec fn placed_alike(a: PhysicsData, b: PhysicsData) -> bool {
    &&& a.position == b.position
    &&& a.vertices == b.vertices
    &&& a.axes == b.axes
    &&& a.stationary == b.stationary
    &&& a.mass == b.mass
}

/// Whether two scenes differ at most in the velocities of their bodies.
pub open spec fn scenes_placed_alike(a: Seq<PhysicsEntity>, b: Seq<PhysicsEntity>) -> bool {
    &&& a.len() == b.len()
    &&& forall|j: int| 0 <= j < a.len() ==> placed_alike(#[trigger] a[j].data(), b[j].data())
}

/// Contacts depend on where the bodies are, not on how they move.
pub proof fn lemma_first_contact_ignores_velocity(
    a: Seq<PhysicsEntity>,
    b: Seq<PhysicsEntity>,
    i: int,
    from: int,
)
    requires
        scenes_placed_alike(a, b),
        0 <= i < a.len(),
        0 <= from,
    ensures
        first_contact_from(a, i, from) == first_contact_from(b, i, from),
    decreases a.len() - from,
{
    if from < a.len() {
        assert(placed_alike(a[i].data(), b[i].data()));
        assert(placed_alike(a[from].data(), b[from].data()));
        lemma_first_contact_ignores_velocity(a, b, i, from + 1);
    }
}

/// Attraction depends on where the bodies are, not on how they move.
pub proof fn lemma_total_pull_ignores_velocity(
    a: Seq<PhysicsEntity>,
    b: Seq<PhysicsEntity>,
    i: int,
    upto: int,
)
    requires
        scenes_placed_alike(a, b),
        0 <= i < a.len(),
        0 <= upto <= a.len(),
    ensures
        total_pull(a, i, upto) == total_pull(b, i, upto),
    decreases upto,
{
    if upto > 0 {
        assert(placed_alike(a[i].data(), b[i].data()));
        assert(placed_alike(a[upto - 1].data(), b[upto - 1].data()));
        lemma_total_pull_ignores_velocity(a, b, i, upto - 1);
    }
}

/// The contact of body `i` with the first other body that it overlaps.
pub fn first_partner(bodies: &Vec<PhysicsEntity>, i: usize) -> (r: Option<Vec2>)
    requires
        i < bodies.len(),
    ensures
        match r {
            Some(mtv) => first_contact(bodies@, i as int) == Some(mtv@),
            None => first_contact(bodies@, i as int) is None,
        },
{
    let mut j: usize = 0;
    while j < bodies.len()
        invariant
            0 <= j <= bodies.len(),
            i < bodies.len(),
            first_contact(bodies@, i as int) == first_contact_from(bodies@, i as int, j as int),
        decreases bodies.len() - j,
    {
        if j != i {
            match test_collision(&bodies[i], &bodies[j]) {
                Some(mtv) => {
                    return Some(mtv);
                },
                None => {},
            }
        }
        j += 1;
    }
    None
}

/// The sum of the forces of gravitation on body `i` from all others.
pub fn total_force(bodies: &Vec<PhysicsEntity>, i: usize) -> (r: Vec2)
    requires
        i < bodies.len(),
    ensures
        r@ == total_pull(bodies@, i as int, bodies@.len() as int),
{
    let mut total = Vec2::zero();
    let mut j: usize = 0;
    while j < bodies.len()
        invariant
            0 <= j <= bodies.len(),
            i < bodies.len(),
            total@ == total_pull(bodies@, i as int, j as int),
        decreases bodies.len() - j,
    {
        if j != i {
            let force = grav_force(
                &bodies[i].mass(),
                &bodies[j].mass(),
                &bodies[i].position(),
                &bodies[j].position(),
            );
            total = total.plus(force);
        }
        j += 1;
    }
    total
}

/// Collision response: every body that moves and overlaps another leaves
/// its first contact with the response velocity.
pub fn resolve_collisions(scene: &mut Scene)
    ensures
        final(scene).entities@ == after_collisions(old(scene).entities@),
{
    let ghost before = scene.entities@;
    let n = scene.entities.len();
    let mut i: usize = 0;
    while i < n
        invariant
            0 <= i <= n,
            n == before.len(),
            scene.entities@.len() == n,
            scenes_placed_alike(scene.entities@, before),
            forall|j: int| 0 <= j < i ==> scene.entities@[j] == collided(before, j),
            forall|j: int| i <= j < n ==> scene.entities@[j] == before[j],
        decreases n - i,
    {
        if !scene.entities[i].is_stationary() {
            let hit = first_partner(&scene.entities, i);
            proof {
                lemma_first_contact_ignores_velocity(scene.entities@, before, i as int, 0);
            }
            match hit {
                Some(mtv) => {
                    let v = scene.entities[i].velocity();
                    let after = collision_response(v, mtv);
                    assert(after == after@.to_vec2());
                    scene.entities[i].set_velocity(after);
                },
                None => {},
            }
        }
        i += 1;
    }
    assert(scene.entities@ =~= after_collisions(before));
}

/// Gravitation: every body that moves and has mass gains the velocity that
/// the attraction of all others gives it in the time `dt`.
pub fn apply_gravity(scene: &mut Scene, dt: Scalar)
    ensures
        final(scene).entities@ == after_gravity(old(scene).entities@, dt@),
{
    let ghost before = scene.entities@;
    let n = scene.entities.len();
    let mut i: usize = 0;
    while i < n
        invariant
            0 <= i <= n,
            n == before.len(),
            scene.entities@.len() == n,
            scenes_placed_alike(scene.entities@, before),
            forall|j: int| 0 <= j < i ==> scene.entities@[j] == attracted(before, j, dt@),
            forall|j: int| i <= j < n ==> scene.entities@[j] == before[j],
        decreases n - i,
    {
        if !scene.entities[i].is_stationary() {
            let force = total_force(&scene.entities, i);
            proof {
                lemma_total_pull_ignores_velocity(scene.entities@, before, i as int, n as int);
            }
            match force.over(scene.entities[i].mass()) {
                Some(acceleration) => {
                    let v = scene.entities[i].velocity();
                    let after = v.plus(acceleration.scaled(dt));
                    assert(after == after@.to_vec2());
                    scene.entities[i].set_velocity(after);
                },
                None => {},
            }
        }
        i += 1;
    }
    assert(scene.entities@ =~= after_gravity(before, dt@));
}

/// Drag: every body that moves loses its drag from its velocity.
pub fn apply_drag(scene: &mut Scene)
    ensures
        final(scene).entities@ == after_drag(old(scene).entities@),
{
    let ghost before = scene.entities@;
    let n = scene.entities.len();
    let mut i: usize = 0;
    while i < n
        invariant
            0 <= i <= n,
            n == before.len(),
            scene.entities@.len() == n,
            forall|j: int| 0 <= j < i ==> scene.entities@[j] == dragged(before[j]),
            forall|j: int| i <= j < n ==> scene.entities@[j] == before[j],
        decreases n - i,
    {
        if !scene.entities[i].is_stationary() {
            let v = scene.entities[i].velocity();
            let after = v.minus(drag(v));
            assert(after == after@.to_vec2());
            scene.entities[i].set_velocity(after);
        }
        i += 1;
    }
    assert(scene.entities@ =~= after_drag(before));
}

/// Motion: every body that moves and that an element draws goes on by its
/// velocity times `dt`.
pub fn integrate(scene: &mut Scene, dt: Scalar)
    ensures
        final(scene).entities@ == after_motion(old(scene).entities@, dt@),
{
    let ghost before = scene.entities@;
    let n = scene.entities.len();
    let mut i: usize = 0;
    while i < n
        invariant
            0 <= i <= n,
            n == before.len(),
            scene.entities@.len() == n,
            forall|j: int| 0 <= j < i ==> scene.entities@[j] == advanced(before[j], dt@),
            forall|j: int| i <= j < n ==> scene.entities@[j] == before[j],
        decreases n - i,
    {
        if !scene.entities[i].is_stationary() && scene.entities[i].entity().is_some() {
            let delta_pos = scene.entities[i].velocity().scaled(dt);
            let after = scene.entities[i].position().plus(delta_pos);
            assert(after == after@.to_vec2());
            scene.entities[i].set_position(after);
        }
        i += 1;
    }
    assert(scene.entities@ =~= after_motion(before, dt@));
}

/// A stationary body is the same after a tick as before it.
pub proof fn lemma_tick_spares_stationary(bodies: Seq<PhysicsEntity>, dt: int, i: int)
    requires
        0 <= i < bodies.len(),
        bodies[i].data().stationary,
    ensures
        tick(bodies, dt).len() == bodies.len(),
        tick(bodies, dt)[i] == bodies[i],
{
    let a = after_collisions(bodies);
    let b = after_gravity(a, dt);
    let c = after_drag(b);
    assert(a[i] == collided(bodies, i));
    assert(b[i] == attracted(a, i, dt));
    assert(c[i] == dragged(b[i]));
    assert(tick(bodies, dt)[i] == advanced(c[i], dt));
}

/// Advances the scene by one tick of length `dt`: collision response,
/// gravitation, drag and motion, in this order, each on the outcome of the
/// one before. The bodies stay in their order, and a stationary body is
/// not changed.
pub fn kinetic_physics(scene: &mut Scene, dt: Scalar)
    ensures
        final(scene).entities@ == tick(old(scene).entities@, dt@),
        final(scene).entities@.len() == old(scene).entities@.len(),
        forall|i: int|
            0 <= i < old(scene).entities@.len() && old(scene).entities@[i].data().stationary
                ==> #[trigger] final(scene).entities@[i] == old(scene).entities@[i],
{
    let ghost before = scene.entities@;
    resolve_collisions(scene);
    apply_gravity(scene, dt);
    apply_drag(scene);
    integrate(scene, dt);
    proof {
        assert forall|i: int| 0 <= i < before.len() && before[i].data().stationary implies tick(
            before,
            dt@,
        )[i] == before[i] by {
            lemma_tick_spares_stationary(before, dt@, i);
        }
    }
}

} // verus!
