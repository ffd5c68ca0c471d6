//! What holds of the simulation as a whole.

use vstd::prelude::*;
use crate::physics::constants::GRAVITY;
use crate::physics::entities::{PhysicsData, PhysicsEntity};
use crate::physics::geometry::{
    degenerate_at, direction_spec, edge, lemma_direction_is_unit, lemma_rectangle_ring,
    normals_spec, rectangle_corners, rectangle_normals, regular_polygon, well_formed_ring,
};
use crate::physics::interactions::{
    advanced, after_collisions, after_drag, after_gravity, attracted, collided, collision_spec,
    contact, drag_spec, dragged, first_contact, greatest_projection, least_projection,
    lemma_projection_extremes, lemma_sweep_stays_none, lemma_tick_spares_stationary,
    no_candidate, overlap_on, pull_spec, pull_strength, reflect_spec, response_spec,
    separated_on, stands_for, sweep, tick, Candidate,
};
use crate::physics::scalar::{
    lemma_product_bounded, lemma_quotient_bounded, lemma_quotient_error, magnitude, product_spec,
    quotient, SCALE,
};
use crate::physics::vector::{
    dot_spec, lemma_dot_along_axes, lemma_quotient_of_multiple, lemma_scaled_opposite,
    lemma_unit_length, lemma_unit_of_opposite, nearly_unit, opposite, squared_length, unit_spec,
    vector_difference, vector_negation, vector_perp, vector_scaled, views, Vector,
    SCALE_SQUARED,
};

verus! {

/// A regular polygon has as many corners as it has sides, each the radius
/// times a unit vector, and where its edges have some length it has as
/// many normals, each of unit length up to rounding.
pub proof fn lemma_polygon_counts(radius: int, n: int)
    requires
        0 <= n,
    ensures
        regular_polygon(radius, n).len() == n,
        forall|k: int|
            0 <= k < n ==> {
                &&& nearly_unit(direction_spec(k, n))
                &&& #[trigger] regular_polygon(radius, n)[k] == vector_scaled(
                    direction_spec(k, n),
                    radius,
                )
            },
        well_formed_ring(regular_polygon(radius, n)) ==> {
            &&& normals_spec(regular_polygon(radius, n)).len() == n
            &&& forall|i: int|
                0 <= i < n ==> nearly_unit(#[trigger] normals_spec(regular_polygon(radius, n))[i])
        },
{
    let ring = regular_polygon(radius, n);
    assert forall|k: int| 0 <= k < n implies nearly_unit(direction_spec(k, n)) by {
        lemma_direction_is_unit(k, n);
    }
    if well_formed_ring(ring) {
        lemma_normals_are_unit(ring);
    }
}

/// The normals of a ring whose edges have some length are as many as its
/// corners, and each has unit length up to rounding.
pub proof fn lemma_normals_are_unit(vertices: Seq<Vector>)
    requires
        well_formed_ring(vertices),
    ensures
        normals_spec(vertices).len() == vertices.len(),
        forall|i: int|
            0 <= i < vertices.len() ==> nearly_unit(#[trigger] normals_spec(vertices)[i]),
{
    assert forall|i: int| 0 <= i < vertices.len() implies nearly_unit(
        #[trigger] normals_spec(vertices)[i],
    ) by {
        assert(!degenerate_at(vertices, i));
        lemma_unit_length(vector_perp(edge(vertices, i)));
    }
}

/// The scene after the ticks of the lengths `steps`, one after the other.
pub open spec fn run(bodies: Seq<PhysicsEntity>, steps: Seq<int>) -> Seq<PhysicsEntity>
    decreases steps.len(),
{
    if steps.len() == 0 {
        bodies
    } else {
        tick(run(bodies, steps.drop_last()), steps.last())
    }
}

/// A tick changes nothing of a body but its position and its velocity: the
/// scene keeps its bodies in their order, and each keeps its shape, its
/// normals, its mass, whether it is stationary, and what the renderer
/// keeps of it.
pub proof fn lemma_tick_keeps_shapes(bodies: Seq<PhysicsEntity>, dt: int, i: int)
    requires
        0 <= i < bodies.len(),
    ensures
        tick(bodies, dt).len() == bodies.len(),
        tick(bodies, dt)[i].data().vertices == bodies[i].data().vertices,
        tick(bodies, dt)[i].data().axes == bodies[i].data().axes,
        tick(bodies, dt)[i].data().mass == bodies[i].data().mass,
        tick(bodies, dt)[i].data().stationary == bodies[i].data().stationary,
        tick(bodies, dt)[i].render() == bodies[i].render(),
        tick(bodies, dt)[i] is Ball <==> bodies[i] is Ball,
        tick(bodies, dt)[i].data().well_formed() <==> bodies[i].data().well_formed(),
{
    let a = after_collisions(bodies);
    let b = after_gravity(a, dt);
    let c = after_drag(b);
    assert(a[i] == collided(bodies, i));
    assert(b[i] == attracted(a, i, dt));
    assert(c[i] == dragged(b[i]));
    assert(tick(bodies, dt)[i] == advanced(c[i], dt));
}

/// A stationary body never changes: after any number of ticks of any
/// lengths it is what it was at the start.
pub proof fn lemma_stationary_forever(bodies: Seq<PhysicsEntity>, steps: Seq<int>, i: int)
    requires
        0 <= i < bodies.len(),
        bodies[i].data().stationary,
    ensures
        run(bodies, steps).len() == bodies.len(),
        run(bodies, steps)[i] == bodies[i],
    decreases steps.len(),
{
    if steps.len() > 0 {
        lemma_stationary_forever(bodies, steps.drop_last(), i);
        lemma_tick_spares_stationary(run(bodies, steps.drop_last()), steps.last(), i);
    }
}

/// A body keeps the velocity that it has.
proof fn lemma_own_velocity(me: PhysicsEntity)
    ensures
        me.with_velocity(me.data().velocity@.to_vec2()) == me,
        me.with_position(me.data().position@.to_vec2()) == me,
        me.data().velocity@.to_vec2() == me.data().velocity,
        me.data().position@.to_vec2() == me.data().position,
{
}

/// A tick of no length moves nothing, and gravitation gives no velocity in
/// it: each body is after it what collision response and drag alone make of
/// it, at the place where it was. A body that overlaps no other and on
/// which there is no drag is unchanged.
pub proof fn lemma_tick_of_no_length(bodies: Seq<PhysicsEntity>, i: int)
    requires
        0 <= i < bodies.len(),
    ensures
        tick(bodies, 0).len() == bodies.len(),
        tick(bodies, 0)[i] == dragged(collided(bodies, i)),
        tick(bodies, 0)[i].data().position == bodies[i].data().position,
        drag_spec(collided(bodies, i).data().velocity@) == Vector::zero() ==> tick(bodies, 0)[i]
            == collided(bodies, i),
        drag_spec(bodies[i].data().velocity@) == Vector::zero() && first_contact(bodies, i)
            is None ==> tick(bodies, 0)[i] == bodies[i],
{
    let a = after_collisions(bodies);
    let b = after_gravity(a, 0);
    let c = after_drag(b);
    assert(a[i] == collided(bodies, i));
    assert(b[i] == attracted(a, i, 0));
    assert(c[i] == dragged(b[i]));
    assert(tick(bodies, 0)[i] == advanced(c[i], 0));
    lemma_own_velocity(a[i]);
    assert(b[i] == a[i]);
    lemma_own_velocity(c[i]);
    assert(advanced(c[i], 0) == c[i]);
    lemma_own_velocity(collided(bodies, i));
    lemma_own_velocity(bodies[i]);
}

/// Whether some axis of `axes` separates the two shapes.
pub open spec fn some_axis_separates(
    axes: Seq<Vector>,
    first: Seq<Vector>,
    second: Seq<Vector>,
) -> bool {
    exists|k: int| 0 <= k < axes.len() && separated_on(first, second, #[trigger] axes[k])
}

/// Looking at axes in order ends without a candidate exactly when one of
/// them separates the shapes.
pub proof fn lemma_sweep_none_iff_separated(
    axes: Seq<Vector>,
    first: Seq<Vector>,
    second: Seq<Vector>,
    flip: bool,
    start: Candidate,
)
    ensures
        sweep(axes, first, second, flip, Some(start)) is None <==> some_axis_separates(
            axes,
            first,
            second,
        ),
    decreases axes.len(),
{
    if axes.len() > 0 {
        let front = axes.drop_last();
        lemma_sweep_none_iff_separated(front, first, second, flip, start);
        if some_axis_separates(front, first, second) {
            let k = choose|k: int|
                0 <= k < front.len() && separated_on(first, second, #[trigger] front[k]);
            assert(separated_on(first, second, axes[k]));
        }
        if separated_on(first, second, axes.last()) {
            assert(separated_on(first, second, axes[axes.len() - 1]));
        }
        if some_axis_separates(axes, first, second) {
            let k = choose|k: int|
                0 <= k < axes.len() && separated_on(first, second, #[trigger] axes[k]);
            if k < front.len() {
                assert(separated_on(first, second, front[k]));
            }
        }
    }
}

/// The separating axis test finds no contact exactly when some edge normal
/// of either shape separates the two.
pub proof fn lemma_no_contact_iff_separated(
    first_axes: Seq<Vector>,
    first: Seq<Vector>,
    second_axes: Seq<Vector>,
    second: Seq<Vector>,
)
    ensures
        collision_spec(first_axes, first, second_axes, second) is None <==> (some_axis_separates(
            first_axes,
            first,
            second,
        ) || some_axis_separates(second_axes, first, second)),
{
    lemma_sweep_none_iff_separated(first_axes, first, second, true, no_candidate());
    match sweep(first_axes, first, second, true, Some(no_candidate())) {
        None => {
            lemma_sweep_stays_none(second_axes, first, second, false);
        },
        Some(best) => {
            lemma_sweep_none_iff_separated(second_axes, first, second, false, best);
        },
    }
}

/// Attraction is mutual: two bodies with masses that are not negative pull
/// each other with forces that are opposite and equal.
pub proof fn lemma_pull_is_mutual(m1: int, m2: int, p1: Vector, p2: Vector)
    requires
        0 <= m1 <= i64::MAX,
        0 <= m2 <= i64::MAX,
        magnitude(p1.x) <= FAR,
        magnitude(p1.y) <= FAR,
        magnitude(p2.x) <= FAR,
        magnitude(p2.y) <= FAR,
    ensures
        pull_spec(m2, m1, p2, p1) == opposite(pull_spec(m1, m2, p1, p2)),
{
    let delta = vector_difference(p2, p1);
    assert(vector_difference(p1, p2) == opposite(delta));
    if delta != Vector::zero() {
        lemma_unit_of_opposite(delta);
        lemma_unit_length(delta);
        let toward = unit_spec(delta)->0;
        assert(m2 * m1 == m1 * m2) by (nonlinear_arith);
        assert(squared_length(opposite(delta)) == squared_length(delta)) by (nonlinear_arith);
        let strength = pull_strength(m1, m2, delta);
        assert(pull_strength(m2, m1, opposite(delta)) == strength);
        assert(strength >= 0) by {
            let masses = product_spec(m1, m2);
            assert(m1 * m2 >= 0) by (nonlinear_arith)
                requires
                    m1 >= 0,
                    m2 >= 0,
            ;
            lemma_quotient_bounded(m1 * m2, SCALE as int);
            assert(masses >= 0);
            let pull = GRAVITY * masses * SCALE_SQUARED;
            assert(pull >= 0) by (nonlinear_arith)
                requires
                    pull == GRAVITY * masses * SCALE_SQUARED,
                    masses >= 0,
                    GRAVITY == 667_430,
                    SCALE_SQUARED == 1_000_000_000_000,
            ;
            let squared = squared_length(delta);
            assert(squared > 0) by (nonlinear_arith)
                requires
                    squared == delta.x * delta.x + delta.y * delta.y,
                    delta.x != 0 || delta.y != 0,
            ;
            lemma_quotient_bounded(pull, squared);
            assert(quotient(pull, squared) == magnitude(quotient(pull, squared)));
        }
        lemma_scaled_opposite(toward, strength);
    }
}

/// Contact is mutual: the test finds the first body in contact with the
/// second exactly when it finds the second in contact with the first.
pub proof fn lemma_contact_is_mutual(a: PhysicsData, b: PhysicsData)
    ensures
        contact(a, b) is Some <==> contact(b, a) is Some,
{
    lemma_no_contact_iff_separated(a.normals(), a.world(), b.normals(), b.world());
    lemma_no_contact_iff_separated(b.normals(), b.world(), a.normals(), a.world());
    lemma_separation_is_mutual(a.normals(), a.world(), b.world());
    lemma_separation_is_mutual(b.normals(), a.world(), b.world());
}

/// An axis that separates two shapes separates them in either order.
proof fn lemma_separation_is_mutual(axes: Seq<Vector>, first: Seq<Vector>, second: Seq<Vector>)
    ensures
        some_axis_separates(axes, first, second) <==> some_axis_separates(axes, second, first),
{
    if some_axis_separates(axes, first, second) {
        let k = choose|k: int|
            0 <= k < axes.len() && separated_on(first, second, #[trigger] axes[k]);
        assert(separated_on(second, first, axes[k]));
    }
    if some_axis_separates(axes, second, first) {
        let k = choose|k: int|
            0 <= k < axes.len() && separated_on(second, first, #[trigger] axes[k]);
        assert(separated_on(first, second, axes[k]));
    }
}

/// Whether the candidate `best` stands for the axis `k`, has its overlap,
/// and every axis before it has a greater one.
pub open spec fn is_first_least(
    axes: Seq<Vector>,
    first: Seq<Vector>,
    second: Seq<Vector>,
    flip: bool,
    best: Candidate,
    k: int,
) -> bool {
    &&& 0 <= k < axes.len()
    &&& best.overlap == overlap_on(first, second, axes[k])
    &&& best.direction == stands_for(axes[k], flip)
    &&& forall|j: int| 0 <= j < k ==> best.overlap < overlap_on(first, second, #[trigger] axes[j])
}

/// Whether no axis has a smaller overlap than the candidate `best`.
pub open spec fn is_least(
    axes: Seq<Vector>,
    first: Seq<Vector>,
    second: Seq<Vector>,
    best: Candidate,
) -> bool {
    forall|j: int| 0 <= j < axes.len() ==> best.overlap <= overlap_on(
        first,
        second,
        #[trigger] axes[j],
    )
}

/// Where no axis separates the shapes, the candidate that is left has the
/// least overlap of the start and all axes. Where that is less than the
/// overlap of the start, it is the overlap of some axis, the candidate
/// stands for that axis, and every axis before it has a greater overlap;
/// else the candidate is the start.
#[verifier::rlimit(40)]
pub proof fn lemma_sweep_keeps_first_least(
    axes: Seq<Vector>,
    first: Seq<Vector>,
    second: Seq<Vector>,
    flip: bool,
    start: Candidate,
)
    requires
        sweep(axes, first, second, flip, Some(start)) is Some,
    ensures
        ({
            let best = sweep(axes, first, second, flip, Some(start))->0;
            &&& best.overlap <= start.overlap
            &&& is_least(axes, first, second, best)
            &&& best.overlap == start.overlap ==> best == start
            &&& best.overlap < start.overlap ==> exists|k: int|
                is_first_least(axes, first, second, flip, best, k)
        }),
    decreases axes.len(),
{
    if axes.len() > 0 {
        let front = axes.drop_last();
        let last = axes.len() - 1;
        lemma_sweep_keeps_first_least(front, first, second, flip, start);
        let kept = sweep(front, first, second, flip, Some(start))->0;
        let best = sweep(axes, first, second, flip, Some(start))->0;
        let here = overlap_on(first, second, axes[last]);
        assert(axes.last() == axes[last]);
        assert(best.overlap <= kept.overlap && best.overlap <= here);
        assert(is_least(axes, first, second, best)) by {
            assert forall|j: int| 0 <= j < axes.len() implies best.overlap <= overlap_on(
                first,
                second,
                #[trigger] axes[j],
            ) by {
                if j < last {
                    assert(front[j] == axes[j]);
                    assert(kept.overlap <= overlap_on(first, second, front[j]));
                }
            }
        }
        if best.overlap < start.overlap {
            if here < kept.overlap {
                assert(is_first_least(axes, first, second, flip, best, last)) by {
                    assert forall|j: int| 0 <= j < last implies best.overlap < overlap_on(
                        first,
                        second,
                        #[trigger] axes[j],
                    ) by {
                        assert(front[j] == axes[j]);
                        assert(kept.overlap <= overlap_on(first, second, front[j]));
                    }
                }
            } else {
                assert(best == kept);
                let k = choose|k: int| is_first_least(front, first, second, flip, kept, k);
                assert(is_first_least(axes, first, second, flip, best, k)) by {
                    assert(front[k] == axes[k]);
                    assert forall|j: int| 0 <= j < k implies best.overlap < overlap_on(
                        first,
                        second,
                        #[trigger] axes[j],
                    ) by {
                        assert(front[j] == axes[j]);
                        assert(kept.overlap < overlap_on(first, second, front[j]));
                    }
                }
            }
        }
    }
}

/// A million million units, as a raw count. The laws on rectangles speak
/// of places and sizes up to here, where no sum of a place and a size is
/// clamped.
pub const FAR: i64 = 1_000_000_000_000_000_000;

/// Whether the body has the shape of the rectangle of the given width and
/// height, with the normals of its edges.
pub open spec fn is_rectangle(body: PhysicsData, width: int, height: int) -> bool {
    &&& views(body.vertices@) == rectangle_corners(width, height)
    &&& body.normals() == normals_spec(views(body.vertices@))
}

/// The corners of the box around `(cx, cy)` that reaches `w` to either side
/// and `h` up and down.
pub open spec fn box_corners(cx: int, cy: int, w: int, h: int) -> Seq<Vector> {
    seq![
        Vector { x: cx + w, y: cy + h },
        Vector { x: cx - w, y: cy + h },
        Vector { x: cx - w, y: cy - h },
        Vector { x: cx + w, y: cy - h },
    ]
}

/// The shadow of a shape with four corners reaches from the least to the
/// greatest of the four projections.
proof fn lemma_four_extremes(corners: Seq<Vector>, axis: Vector, low: int, high: int)
    requires
        corners.len() == 4,
        low <= dot_spec(axis, corners[0]) <= high,
        low <= dot_spec(axis, corners[1]) <= high,
        low <= dot_spec(axis, corners[2]) <= high,
        low <= dot_spec(axis, corners[3]) <= high,
        exists|i: int| 0 <= i < 4 && dot_spec(axis, #[trigger] corners[i]) == low,
        exists|i: int| 0 <= i < 4 && dot_spec(axis, #[trigger] corners[i]) == high,
    ensures
        least_projection(corners, axis) == low,
        greatest_projection(corners, axis) == high,
{
    lemma_projection_extremes(corners, axis);
    let i = choose|i: int|
        0 <= i < corners.len() && least_projection(corners, axis) == dot_spec(
            axis,
            #[trigger] corners[i],
        );
    let j = choose|j: int|
        0 <= j < corners.len() && greatest_projection(corners, axis) == dot_spec(
            axis,
            #[trigger] corners[j],
        );
    assert(i == 0 || i == 1 || i == 2 || i == 3);
    assert(j == 0 || j == 1 || j == 2 || j == 3);
    let a = choose|a: int| 0 <= a < 4 && dot_spec(axis, #[trigger] corners[a]) == low;
    let b = choose|b: int| 0 <= b < 4 && dot_spec(axis, #[trigger] corners[b]) == high;
    assert(least_projection(corners, axis) <= dot_spec(axis, corners[a]));
    assert(dot_spec(axis, corners[b]) <= greatest_projection(corners, axis));
}

/// The shadows of a box on the coordinate axes reach from its one side to
/// the other.
#[verifier::rlimit(40)]
pub proof fn lemma_box_shadows(cx: int, cy: int, w: int, h: int)
    requires
        0 <= w <= FAR,
        0 <= h <= FAR,
        -FAR <= cx <= FAR,
        -FAR <= cy <= FAR,
    ensures
        ({
            let corners = box_corners(cx, cy, w, h);
            let right = Vector { x: SCALE as int, y: 0 };
            let left = Vector { x: -(SCALE as int), y: 0 };
            let up = Vector { x: 0, y: SCALE as int };
            let down = Vector { x: 0, y: -(SCALE as int) };
            &&& least_projection(corners, right) == cx - w
            &&& greatest_projection(corners, right) == cx + w
            &&& least_projection(corners, left) == -cx - w
            &&& greatest_projection(corners, left) == -cx + w
            &&& least_projection(corners, up) == cy - h
            &&& greatest_projection(corners, up) == cy + h
            &&& least_projection(corners, down) == -cy - h
            &&& greatest_projection(corners, down) == -cy + h
        }),
{
    let corners = box_corners(cx, cy, w, h);
    let right = Vector { x: SCALE as int, y: 0 };
    let left = Vector { x: -(SCALE as int), y: 0 };
    let up = Vector { x: 0, y: SCALE as int };
    let down = Vector { x: 0, y: -(SCALE as int) };
    assert(corners.len() == 4);
    assert(corners[0] == Vector { x: cx + w, y: cy + h });
    assert(corners[1] == Vector { x: cx - w, y: cy + h });
    assert(corners[2] == Vector { x: cx - w, y: cy - h });
    assert(corners[3] == Vector { x: cx + w, y: cy - h });
    lemma_dot_along_axes(corners[0]);
    lemma_dot_along_axes(corners[1]);
    lemma_dot_along_axes(corners[2]);
    lemma_dot_along_axes(corners[3]);
    assert(dot_spec(right, corners[1]) == cx - w && dot_spec(right, corners[0]) == cx + w);
    lemma_four_extremes(corners, right, cx - w, cx + w);
    assert(dot_spec(left, corners[0]) == -cx - w && dot_spec(left, corners[1]) == -cx + w);
    lemma_four_extremes(corners, left, -cx - w, -cx + w);
    assert(dot_spec(up, corners[2]) == cy - h && dot_spec(up, corners[0]) == cy + h);
    lemma_four_extremes(corners, up, cy - h, cy + h);
    assert(dot_spec(down, corners[0]) == -cy - h && dot_spec(down, corners[2]) == -cy + h);
    lemma_four_extremes(corners, down, -cy - h, -cy + h);
}

/// Two rectangles side by side, with their centres at the same height,
/// are in contact exactly when the distance between the centres is at most
/// the sum of the half widths. Rectangles that touch are in contact.
#[verifier::rlimit(40)]
pub proof fn lemma_rectangles_side_by_side(
    a: PhysicsData,
    b: PhysicsData,
    width_a: int,
    height_a: int,
    width_b: int,
    height_b: int,
)
    requires
        2 <= width_a <= FAR,
        2 <= height_a <= FAR,
        2 <= width_b <= FAR,
        2 <= height_b <= FAR,
        is_rectangle(a, width_a, height_a),
        is_rectangle(b, width_b, height_b),
        magnitude(a.position@.x) <= FAR,
        magnitude(b.position@.x) <= FAR,
        magnitude(a.position@.y) <= FAR,
        a.position@.y == b.position@.y,
    ensures
        contact(a, b) is Some <==> magnitude(b.position@.x - a.position@.x) <= quotient(
            width_a,
            2,
        ) + quotient(width_b, 2),
{
    let wa = quotient(width_a, 2);
    let ha = quotient(height_a, 2);
    let wb = quotient(width_b, 2);
    let hb = quotient(height_b, 2);
    lemma_quotient_bounded(width_a, 2);
    lemma_quotient_bounded(height_a, 2);
    lemma_quotient_bounded(width_b, 2);
    lemma_quotient_bounded(height_b, 2);
    assert(magnitude(2) == 2);
    assert(1 <= wa <= FAR && 1 <= ha <= FAR && 1 <= wb <= FAR && 1 <= hb <= FAR);
    lemma_rectangle_ring(width_a, height_a);
    lemma_rectangle_ring(width_b, height_b);
    let ax = a.position@.x;
    let ay = a.position@.y;
    let bx = b.position@.x;
    let by = b.position@.y;
    let first = a.world();
    let second = b.world();
    assert(first =~= box_corners(ax, ay, wa, ha)) by {
        assert(first.len() == 4);
        assert(first[0] == box_corners(ax, ay, wa, ha)[0]);
        assert(first[1] == box_corners(ax, ay, wa, ha)[1]);
        assert(first[2] == box_corners(ax, ay, wa, ha)[2]);
        assert(first[3] == box_corners(ax, ay, wa, ha)[3]);
    }
    assert(second =~= box_corners(bx, by, wb, hb)) by {
        assert(second.len() == 4);
        assert(second[0] == box_corners(bx, by, wb, hb)[0]);
        assert(second[1] == box_corners(bx, by, wb, hb)[1]);
        assert(second[2] == box_corners(bx, by, wb, hb)[2]);
        assert(second[3] == box_corners(bx, by, wb, hb)[3]);
    }
    lemma_box_shadows(ax, ay, wa, ha);
    lemma_box_shadows(bx, by, wb, hb);
    let axes = rectangle_normals();
    assert(a.normals() == axes);
    assert(b.normals() == axes);
    assert(axes.len() == 4);
    let apart = magnitude(bx - ax) > wa + wb;
    assert(!separated_on(first, second, axes[0]));
    assert(!separated_on(first, second, axes[2]));
    assert(separated_on(first, second, axes[1]) <==> apart);
    assert(separated_on(first, second, axes[3]) <==> apart);
    assert(some_axis_separates(axes, first, second) <==> apart) by {
        if apart {
            assert(separated_on(first, second, axes[1]));
        }
        if some_axis_separates(axes, first, second) {
            let k = choose|k: int|
                0 <= k < axes.len() && separated_on(first, second, #[trigger] axes[k]);
            assert(k == 0 || k == 1 || k == 2 || k == 3);
        }
    }
    lemma_no_contact_iff_separated(axes, first, axes, second);
}

/// Whether the body lies within a million million units of the origin:
/// its centre, and each corner as seen from the centre.
pub open spec fn within_reach(body: PhysicsData) -> bool {
    &&& magnitude(body.position@.x) <= FAR
    &&& magnitude(body.position@.y) <= FAR
    &&& forall|i: int|
        0 <= i < body.vertices@.len() ==> {
            &&& magnitude((#[trigger] body.vertices@[i])@.x) <= FAR
            &&& magnitude(body.vertices@[i]@.y) <= FAR
        }
}

/// The dot product of a unit axis with a vector is at most the sum of the
/// magnitudes of the components of the vector.
proof fn lemma_dot_bounded(axis: Vector, v: Vector, bound: int)
    requires
        nearly_unit(axis),
        magnitude(v.x) <= bound,
        magnitude(v.y) <= bound,
        0 <= bound <= 2 * FAR,
    ensures
        magnitude(dot_spec(axis, v)) <= 2 * bound,
{
    lemma_unit_components(axis);
    lemma_product_bounded(axis.x, v.x, 1_000_000, bound);
    lemma_product_bounded(axis.y, v.y, 1_000_000, bound);
    let n = axis.x * v.x + axis.y * v.y;
    assert(magnitude(n) <= 2_000_000 * bound);
    lemma_quotient_error(n, 1_000_000);
}

/// The shadow of a body within reach on a unit axis lies within four
/// million million units of the origin.
proof fn lemma_shadow_bounded(body: PhysicsData, axis: Vector)
    requires
        within_reach(body),
        body.vertices@.len() > 0,
        nearly_unit(axis),
    ensures
        magnitude(least_projection(body.world(), axis)) <= 4 * FAR,
        magnitude(greatest_projection(body.world(), axis)) <= 4 * FAR,
{
    let corners = body.world();
    lemma_projection_extremes(corners, axis);
    let low = choose|i: int|
        0 <= i < corners.len() && least_projection(corners, axis) == dot_spec(
            axis,
            #[trigger] corners[i],
        );
    let high = choose|i: int|
        0 <= i < corners.len() && greatest_projection(corners, axis) == dot_spec(
            axis,
            #[trigger] corners[i],
        );
    assert(magnitude(body.vertices@[low]@.x) <= FAR);
    assert(magnitude(body.vertices@[high]@.x) <= FAR);
    lemma_dot_bounded(axis, corners[low], 2 * FAR);
    lemma_dot_bounded(axis, corners[high], 2 * FAR);
}

/// The opposite of a unit vector is a unit vector.
proof fn lemma_negation_is_unit(axis: Vector)
    requires
        nearly_unit(axis),
    ensures
        nearly_unit(vector_negation(axis)),
{
    lemma_unit_components(axis);
    assert((-axis.x) * (-axis.x) == axis.x * axis.x) by (nonlinear_arith);
    assert((-axis.y) * (-axis.y) == axis.y * axis.y) by (nonlinear_arith);
}

/// The overlaps of two bodies within reach on the axes of a body are less
/// than the overlap that a search starts with.
proof fn lemma_overlaps_bounded(axes: Seq<Vector>, a: PhysicsData, b: PhysicsData, j: int)
    requires
        within_reach(a),
        within_reach(b),
        a.vertices@.len() > 0,
        b.vertices@.len() > 0,
        0 <= j < axes.len(),
        nearly_unit(axes[j]),
    ensures
        overlap_on(a.world(), b.world(), axes[j]) < i64::MAX,
{
    lemma_shadow_bounded(a, axes[j]);
    lemma_shadow_bounded(b, axes[j]);
}

/// The direction of a contact between two well-formed bodies within reach
/// is a unit vector, up to rounding: a normal of one of them or its
/// opposite. It is what collision response mirrors the velocity at.
pub proof fn lemma_contact_is_unit(a: PhysicsData, b: PhysicsData)
    requires
        a.well_formed(),
        b.well_formed(),
        within_reach(a),
        within_reach(b),
        contact(a, b) is Some,
    ensures
        nearly_unit(contact(a, b)->0),
{
    let first = a.world();
    let second = b.world();
    let own = a.normals();
    let other = b.normals();
    assert(own.len() == a.vertices@.len() && other.len() == b.vertices@.len());
    assert forall|j: int| 0 <= j < own.len() implies nearly_unit(#[trigger] own[j]) by {
        assert(nearly_unit(a.axes@[j]@));
    }
    assert forall|j: int| 0 <= j < other.len() implies nearly_unit(#[trigger] other[j]) by {
        assert(nearly_unit(b.axes@[j]@));
    }
    let start = no_candidate();
    let middle = sweep(own, first, second, true, Some(start));
    if middle is None {
        lemma_sweep_stays_none(other, first, second, false);
    }
    let kept = middle->0;
    lemma_sweep_keeps_first_least(own, first, second, true, start);
    lemma_overlaps_bounded(own, a, b, 0);
    assert(kept.overlap <= overlap_on(first, second, own[0]));
    let k = choose|k: int| is_first_least(own, first, second, true, kept, k);
    assert(is_first_least(own, first, second, true, kept, k));
    lemma_negation_is_unit(own[k]);
    assert(nearly_unit(kept.direction));
    lemma_sweep_keeps_first_least(other, first, second, false, kept);
    let best = sweep(other, first, second, false, Some(kept))->0;
    if best.overlap < kept.overlap {
        let l = choose|l: int| is_first_least(other, first, second, false, best, l);
        assert(is_first_least(other, first, second, false, best, l));
        assert(nearly_unit(other[l]));
    }
}

/// A hundred thousand million units, as a raw count. The law on collision
/// response speaks of velocities up to here, where nothing is clamped.
pub const FAST: i64 = 100_000_000_000_000_000;

/// The sum of the products of the components, neither rounded nor clamped.
pub open spec fn inner(a: Vector, b: Vector) -> int {
    a.x * b.x + a.y * b.y
}

/// The parts of a product of a raw value `a` with a factor `k`: the
/// product is unclamped, and `product * SCALE + rest == a * k` with a rest
/// of less than one step.
proof fn lemma_product_parts(a: int, k: int, bound_a: int, bound_k: int)
    requires
        magnitude(a) <= bound_a,
        magnitude(k) <= bound_k,
        0 <= bound_a,
        0 <= bound_k,
        bound_a * bound_k <= i64::MAX * SCALE,
    ensures
        product_spec(a, k) == quotient(a * k, SCALE as int),
        magnitude(a * k - product_spec(a, k) * SCALE) < SCALE,
        magnitude(product_spec(a, k)) * SCALE <= bound_a * bound_k,
{
    lemma_product_bounded(a, k, bound_a, bound_k);
    lemma_quotient_error(a * k, SCALE as int);
}

/// A unit axis has components of at most one unit.
proof fn lemma_unit_components(axis: Vector)
    requires
        nearly_unit(axis),
    ensures
        magnitude(axis.x) <= SCALE,
        magnitude(axis.y) <= SCALE,
{
    let s = SCALE as int;
    assert(magnitude(axis.x) <= s && magnitude(axis.y) <= s) by (nonlinear_arith)
        requires
            axis.x * axis.x + axis.y * axis.y <= s * s,
            s == 1_000_000,
    ;
}

/// The exact dot product of a velocity with a unit axis, before and after
/// it is mirrored at the line across the axis: the two add up to nothing,
/// but for what rounding leaves.
proof fn lemma_mirror_inner(v: Vector, axis: Vector)
    requires
        nearly_unit(axis),
        magnitude(v.x) <= FAST,
        magnitude(v.y) <= FAST,
    ensures
        ({
            let before = dot_spec(v, axis);
            let mirrored = reflect_spec(v, axis);
            &&& magnitude(before) <= 2 * FAST
            &&& magnitude(inner(v, axis) - before * 1_000_000) < 1_000_000
            &&& magnitude(mirrored.x) <= 5 * FAST
            &&& magnitude(mirrored.y) <= 5 * FAST
            &&& magnitude(1_000_000 * inner(mirrored, axis) + 1_000_000 * inner(v, axis))
                <= 4_000_000_000_000 + 8_000_000 * magnitude(before)
        }),
{
    let far = FAST as int;
    lemma_unit_components(axis);
    let n = inner(v, axis);
    lemma_product_bounded(v.x, axis.x, far, 1_000_000);
    lemma_product_bounded(v.y, axis.y, far, 1_000_000);
    assert(magnitude(n) <= 2_000_000 * far);
    lemma_quotient_error(n, 1_000_000);
    let d = dot_spec(v, axis);
    assert(d == quotient(n, 1_000_000));
    assert(magnitude(d) <= 2 * far);
    let rho0 = n - d * 1_000_000;
    // twice the dot product
    let k = product_spec(2_000_000, d);
    lemma_quotient_of_multiple(2 * d);
    assert(k == 2 * d);
    // the axis, times twice the dot product
    lemma_product_parts(axis.x, k, 1_000_000, 4 * far);
    lemma_product_parts(axis.y, k, 1_000_000, 4 * far);
    let qx = product_spec(axis.x, k);
    let qy = product_spec(axis.y, k);
    let rx = axis.x * k - qx * 1_000_000;
    let ry = axis.y * k - qy * 1_000_000;
    assert(magnitude(qx) <= 4 * far && magnitude(qy) <= 4 * far);
    let mirrored = reflect_spec(v, axis);
    assert(mirrored.x == v.x - qx && mirrored.y == v.y - qy);
    // each product of two unknowns under a name of its own
    let p1 = qx * axis.x;
    let p2 = qy * axis.y;
    let mx = axis.x * axis.x;
    let my = axis.y * axis.y;
    let r1 = rx * axis.x;
    let r2 = ry * axis.y;
    let k1 = mx * k;
    let k2 = my * k;
    let delta = 1_000_000_000_000 - (mx + my);
    assert(0 <= delta <= 4_000_000);
    let dd = delta * d;
    lemma_product_bounded(delta, d, 4_000_000, magnitude(d));
    lemma_product_bounded(rx, axis.x, 999_999, 1_000_000);
    lemma_product_bounded(ry, axis.y, 999_999, 1_000_000);
    assert(mirrored.x * axis.x == v.x * axis.x - p1) by (nonlinear_arith)
        requires
            mirrored.x == v.x - qx,
            p1 == qx * axis.x,
    ;
    assert(mirrored.y * axis.y == v.y * axis.y - p2) by (nonlinear_arith)
        requires
            mirrored.y == v.y - qy,
            p2 == qy * axis.y,
    ;
    assert(inner(mirrored, axis) == n - p1 - p2);
    assert(r1 == k1 - 1_000_000 * p1) by (nonlinear_arith)
        requires
            rx == axis.x * k - qx * 1_000_000,
            p1 == qx * axis.x,
            k1 == axis.x * axis.x * k,
            r1 == rx * axis.x,
    ;
    assert(r2 == k2 - 1_000_000 * p2) by (nonlinear_arith)
        requires
            ry == axis.y * k - qy * 1_000_000,
            p2 == qy * axis.y,
            k2 == axis.y * axis.y * k,
            r2 == ry * axis.y,
    ;
    assert(k1 + k2 == 2_000_000_000_000 * d - 2 * dd) by (nonlinear_arith)
        requires
            k == 2 * d,
            k1 == mx * k,
            k2 == my * k,
            delta == 1_000_000_000_000 - (mx + my),
            dd == delta * d,
    ;
    assert(1_000_000 * inner(mirrored, axis) + 1_000_000 * n == 2_000_000 * rho0 + 2 * dd + r1
        + r2);
}

/// Collision response turns a body back: the part of its velocity along
/// the unit axis of the contact is afterwards 1.33 times what it was, in
/// the other direction. With `before` and `after` the raw dot products of
/// the velocity with the axis, `after` is `-1.33 * before` up to ten raw
/// steps and two hundred-thousandths of `before`; so a part of at least
/// eight raw steps changes its sign.
pub proof fn lemma_response_turns_back(v: Vector, axis: Vector)
    requires
        nearly_unit(axis),
        magnitude(v.x) <= FAST,
        magnitude(v.y) <= FAST,
    ensures
        ({
            let before = dot_spec(v, axis);
            let after = dot_spec(response_spec(v, axis), axis);
            &&& 1000 * magnitude(100 * after + 133 * before) <= 1_000_000 + 2 * magnitude(before)
            &&& before >= 8 ==> after < 0
            &&& before <= -8 ==> after > 0
        }),
{
    let far = FAST as int;
    lemma_unit_components(axis);
    lemma_mirror_inner(v, axis);
    let n = inner(v, axis);
    let d = dot_spec(v, axis);
    let rho0 = n - d * 1_000_000;
    let mirrored = reflect_spec(v, axis);
    let nr = inner(mirrored, axis);
    let e1 = 1_000_000 * nr + 1_000_000 * n;
    // the mirrored velocity, times the bounce
    lemma_product_parts(mirrored.x, 1_330_000, 5 * far, 1_330_000);
    lemma_product_parts(mirrored.y, 1_330_000, 5 * far, 1_330_000);
    let w = response_spec(v, axis);
    assert(w.x == product_spec(mirrored.x, 1_330_000));
    assert(w.y == product_spec(mirrored.y, 1_330_000));
    let sx = mirrored.x * 1_330_000 - w.x * 1_000_000;
    let sy = mirrored.y * 1_330_000 - w.y * 1_000_000;
    assert(magnitude(w.x) <= 7 * far && magnitude(w.y) <= 7 * far);
    let g1 = mirrored.x * axis.x;
    let g2 = mirrored.y * axis.y;
    let u1 = w.x * axis.x;
    let u2 = w.y * axis.y;
    let t1 = sx * axis.x;
    let t2 = sy * axis.y;
    lemma_product_bounded(sx, axis.x, 999_999, 1_000_000);
    lemma_product_bounded(sy, axis.y, 999_999, 1_000_000);
    lemma_product_bounded(w.x, axis.x, 7 * far, 1_000_000);
    lemma_product_bounded(w.y, axis.y, 7 * far, 1_000_000);
    let n2 = inner(w, axis);
    assert(n2 == u1 + u2);
    assert(nr == g1 + g2);
    assert(magnitude(n2) <= 14_000_000 * far);
    lemma_quotient_error(n2, 1_000_000);
    let after = dot_spec(w, axis);
    assert(after == quotient(n2, 1_000_000));
    let rho1 = n2 - after * 1_000_000;
    assert(t1 == 1_330_000 * g1 - 1_000_000 * u1) by (nonlinear_arith)
        requires
            sx == mirrored.x * 1_330_000 - w.x * 1_000_000,
            t1 == sx * axis.x,
            g1 == mirrored.x * axis.x,
            u1 == w.x * axis.x,
    ;
    assert(t2 == 1_330_000 * g2 - 1_000_000 * u2) by (nonlinear_arith)
        requires
            sy == mirrored.y * 1_330_000 - w.y * 1_000_000,
            t2 == sy * axis.y,
            g2 == mirrored.y * axis.y,
            u2 == w.y * axis.y,
    ;
    // what is left is linear in the named parts
    assert(1_000_000 * n2 == 1_330_000 * nr - t1 - t2);
    assert(1_000_000_000_000 * n2 == 1_330_000 * e1 - 1_330_000_000_000 * n - 1_000_000 * t1
        - 1_000_000 * t2);
    assert(1_000_000_000_000_000_000 * after + 1_330_000_000_000_000_000 * d == 1_330_000 * e1
        - 1_330_000_000_000 * rho0 - 1_000_000 * t1 - 1_000_000 * t2 - 1_000_000_000_000 * rho1);
}

} // verus!
