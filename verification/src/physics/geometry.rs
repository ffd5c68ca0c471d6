//! Convex polygons: rings of corners, and the unit normals of their edges.

use vstd::prelude::*;
use crate::physics::roots::{is_floor_sqrt, lemma_floor_sqrt_is};
use crate::physics::scalar::{
    lemma_quotient_bounded, magnitude, negation_spec, product_spec, quotient, Scalar, SCALE,
};
use crate::physics::vector::{
    lemma_unit_along_x, lemma_unit_along_y, lemma_unit_length, nearly_unit, unit_part,
    unit_spec, vector_difference, vector_perp, vector_scaled, views, Vec2, Vector,
};

verus! {

/// Why a ring of corners has no normals.
#[derive(Clone, Copy, Debug, PartialEq, Eq, Structural)]
pub enum GeometryError {
    /// A polygon has at least three corners.
    TooFewVertices,
    /// The corner at `index` and the one after it are the same point, so
    /// that the edge between them has no direction.
    DegenerateEdge { index: usize },
}

/// The edge from corner `i` to the next corner of the ring.
pub open spec fn edge(vertices: Seq<Vector>, i: int) -> Vector
    recommends
        0 <= i < vertices.len(),
{
    vector_difference(vertices[(i + 1) % (vertices.len() as int)], vertices[i])
}

/// Whether the edge from corner `i` has no length.
pub open spec fn degenerate_at(vertices: Seq<Vector>, i: int) -> bool {
    edge(vertices, i) == Vector::zero()
}

/// Whether the ring is a polygon with edges of some length.
pub open spec fn well_formed_ring(vertices: Seq<Vector>) -> bool {
    &&& vertices.len() >= 3
    &&& forall|i: int| 0 <= i < vertices.len() ==> !degenerate_at(vertices, i)
}

/// The normal of the edge from corner `i`: the edge turned a quarter turn
/// counter-clockwise, at unit length. Where the ring runs counter-clockwise
/// itself, as those of the two shapes do, it points into the polygon.
pub open spec fn normal_at(vertices: Seq<Vector>, i: int) -> Vector
    recommends
        0 <= i < vertices.len(),
        !degenerate_at(vertices, i),
{
    unit_spec(vector_perp(edge(vertices, i)))->0
}

/// The normals of all edges of the ring, in the order of the corners.
pub open spec fn normals_spec(vertices: Seq<Vector>) -> Seq<Vector> {
    Seq::new(vertices.len(), |i: int| normal_at(vertices, i))
}

/// Whether the edge from corner `i` is the first without length.
pub open spec fn is_first_degenerate(vertices: Seq<Vector>, i: int) -> bool {
    &&& 0 <= i < vertices.len()
    &&& degenerate_at(vertices, i)
    &&& forall|j: int| 0 <= j < i ==> !degenerate_at(vertices, j)
}

/// What is wrong with a ring of corners, if anything: fewer than three
/// corners, or else the first edge without length.
pub open spec fn ring_fault(vertices: Seq<Vector>) -> Option<GeometryError> {
    if vertices.len() < 3 {
        Some(GeometryError::TooFewVertices)
    } else if exists|i: int| is_first_degenerate(vertices, i) {
        Some(
            GeometryError::DegenerateEdge {
                index: (choose|i: int| is_first_degenerate(vertices, i)) as usize,
            },
        )
    } else {
        None
    }
}

/// A ring without a fault is well formed, and the other way round.
pub proof fn lemma_ring_fault_none(vertices: Seq<Vector>)
    ensures
        ring_fault(vertices) is None <==> well_formed_ring(vertices),
{
    if vertices.len() >= 3 {
        if !well_formed_ring(vertices) {
            let i = choose|i: int| 0 <= i < vertices.len() && degenerate_at(vertices, i);
            lemma_first_degenerate_exists(vertices, i);
        } else {
            if exists|i: int| is_first_degenerate(vertices, i) {
                let i = choose|i: int| is_first_degenerate(vertices, i);
                assert(degenerate_at(vertices, i));
            }
        }
    }
}

/// Where some edge up to `i` has no length, one of them is the first.
proof fn lemma_first_degenerate_exists(vertices: Seq<Vector>, i: int)
    requires
        0 <= i < vertices.len(),
        degenerate_at(vertices, i),
    ensures
        exists|k: int| is_first_degenerate(vertices, k),
    decreases i,
{
    if exists|j: int| 0 <= j < i && degenerate_at(vertices, j) {
        let j = choose|j: int| 0 <= j < i && degenerate_at(vertices, j);
        lemma_first_degenerate_exists(vertices, j);
    } else {
        assert(is_first_degenerate(vertices, i));
    }
}

/// The first edge without length is the fault of a ring of three or more.
proof fn lemma_ring_fault_at(vertices: Seq<Vector>, i: int)
    requires
        vertices.len() >= 3,
        vertices.len() <= usize::MAX,
        is_first_degenerate(vertices, i),
    ensures
        ring_fault(vertices) == Some(GeometryError::DegenerateEdge { index: i as usize }),
{
    let k = choose|k: int| is_first_degenerate(vertices, k);
    if k < i {
        assert(!degenerate_at(vertices, k));
    } else if i < k {
        assert(!degenerate_at(vertices, i));
    }
}

/// The normals of the edges of a ring of corners. The ring has normals
/// exactly when it has at least three corners and no two consecutive
/// corners are the same point; of several edges without length the error
/// names the first. Every normal has unit length, up to rounding.
pub fn compute_normals(vertices: &Vec<Vec2>) -> (r: Result<Vec<Vec2>, GeometryError>)
    ensures
        match r {
            Ok(normals) => {
                &&& ring_fault(views(vertices@)) is None
                &&& well_formed_ring(views(vertices@))
                &&& normals@.len() == vertices@.len()
                &&& views(normals@) == normals_spec(views(vertices@))
                &&& forall|i: int| 0 <= i < normals@.len() ==> nearly_unit(#[trigger] normals@[i]@)
            },
            Err(fault) => ring_fault(views(vertices@)) == Some(fault),
        },
{
    let n = vertices.len();
    if n < 3 {
        return Err(GeometryError::TooFewVertices);
    }
    let ghost ring = views(vertices@);
    let mut normals: Vec<Vec2> = Vec::new();
    let mut i: usize = 0;
    while i < n
        invariant
            0 <= i <= n,
            n == vertices@.len(),
            n >= 3,
            ring == views(vertices@),
            normals@.len() == i,
            forall|j: int| 0 <= j < i ==> !degenerate_at(ring, j),
            forall|j: int| 0 <= j < i ==> #[trigger] normals@[j]@ == normal_at(ring, j),
            forall|j: int| 0 <= j < i ==> nearly_unit(#[trigger] normals@[j]@),
        decreases n - i,
    {
        let j = if i + 1 == n {
            0
        } else {
            i + 1
        };
        assert(j == (i + 1) % (n as int)) by {
            if i + 1 == n {
                assert((n as int) % (n as int) == 0) by (nonlinear_arith)
                    requires
                        n > 0,
                ;
            } else {
                assert((i + 1) % (n as int) == i + 1) by (nonlinear_arith)
                    requires
                        0 <= i + 1 < n,
                ;
            }
        }
        let along = vertices[j].minus(vertices[i]);
        assert(along@ == edge(ring, i as int));
        match along.perp().normalized() {
            None => {
                proof {
                    lemma_ring_fault_at(ring, i as int);
                }
                return Err(GeometryError::DegenerateEdge { index: i });
            },
            Some(normal) => {
                proof {
                    lemma_unit_length(vector_perp(along@));
                }
                normals.push(normal);
            },
        }
        i += 1;
    }
    assert(views(normals@) =~= normals_spec(ring));
    proof {
        lemma_ring_fault_none(ring);
    }
    Ok(normals)
}

/// One, in the finer steps in which angles and their series are counted:
/// a million millionths.
pub const FINE: u128 = 1_000_000_000_000;

/// An eighth of a turn in radians, in fine steps.
pub const EIGHTH_TURN: u128 = 785_398_163_397;

/// One factor of a series in nested form: `1 - (y * t) / k`, in fine steps.
pub open spec fn damp_spec(y: int, t: int, k: int) -> int {
    FINE - (y * t / (FINE as int)) / k
}

/// The cosine of the angle `x`, in fine steps, by its series up to the
/// eighth power: `1 - y/2 (1 - y/12 (1 - y/30 (1 - y/56)))` with `y = x^2`.
pub open spec fn cos_series(x: int) -> int {
    let y = x * x / (FINE as int);
    damp_spec(y, damp_spec(y, damp_spec(y, damp_spec(y, FINE as int, 56), 30), 12), 2)
}

/// The sine of the angle `x`, in fine steps, by its series up to the ninth
/// power: `x (1 - y/6 (1 - y/20 (1 - y/42 (1 - y/72))))` with `y = x^2`.
pub open spec fn sin_series(x: int) -> int {
    let y = x * x / (FINE as int);
    x * damp_spec(y, damp_spec(y, damp_spec(y, damp_spec(y, FINE as int, 72), 42), 20), 6) / (
    FINE as int)
}

/// The angle between the direction `k / n` of a turn and the nearest
/// coordinate axis or diagonal before it in its eighth, or after it where
/// the eighth is an odd one; in fine steps.
pub open spec fn folded_angle(k: int, n: int) -> int
    recommends
        0 <= k < n,
{
    let rest = (8 * k) % n;
    let part = if ((8 * k) / n) % 2 == 0 {
        rest
    } else {
        n - rest
    };
    part * EIGHTH_TURN / n
}

/// The unit vector `(c, s)` placed in the eighth `eighth` of the turn.
pub open spec fn unfolded(eighth: int, c: int, s: int) -> Vector {
    if eighth == 0 {
        Vector { x: c, y: s }
    } else if eighth == 1 {
        Vector { x: s, y: c }
    } else if eighth == 2 {
        Vector { x: -s, y: c }
    } else if eighth == 3 {
        Vector { x: -c, y: s }
    } else if eighth == 4 {
        Vector { x: -c, y: -s }
    } else if eighth == 5 {
        Vector { x: -s, y: -c }
    } else if eighth == 6 {
        Vector { x: s, y: -c }
    } else {
        Vector { x: c, y: -s }
    }
}

/// The unit vector at `k / n` of a turn, counter-clockwise from the first
/// axis. The angle is folded into the first eighth of the turn, its cosine
/// and sine come from their series, and the pair is brought to unit length.
pub open spec fn direction_spec(k: int, n: int) -> Vector
    recommends
        0 <= k < n,
{
    let x = folded_angle(k, n);
    let u = unit_spec(Vector { x: cos_series(x), y: sin_series(x) })->0;
    unfolded((8 * k) / n, u.x, u.y)
}

/// The corners of the regular polygon with `n` corners on the circle of
/// radius `radius` around the origin, counter-clockwise from the first
/// axis; no corners where `n` is not positive.
pub open spec fn regular_polygon(radius: int, n: int) -> Seq<Vector> {
    Seq::new(
        if n > 0 {
            n as nat
        } else {
            0
        },
        |k: int| vector_scaled(direction_spec(k, n), radius),
    )
}

/// The corners of the rectangle of the given width and height around the
/// origin: top right, top left, bottom left, bottom right.
pub open spec fn rectangle_corners(width: int, height: int) -> Seq<Vector> {
    seq![
        Vector { x: quotient(width, 2), y: quotient(height, 2) },
        Vector { x: -quotient(width, 2), y: quotient(height, 2) },
        Vector { x: -quotient(width, 2), y: -quotient(height, 2) },
        Vector { x: quotient(width, 2), y: -quotient(height, 2) },
    ]
}

/// A factor of a series stays between nothing and one, and above a half
/// where the divisor is two or more.
proof fn lemma_damp_bounds(y: int, t: int, k: int)
    requires
        0 <= y <= FINE,
        0 <= t <= FINE,
        1 <= k,
    ensures
        0 <= damp_spec(y, t, k) <= FINE,
        2 <= k ==> FINE / 2 <= damp_spec(y, t, k),
{
    let inner = y * t / 1_000_000_000_000;
    assert(0 <= inner <= 1_000_000_000_000) by (nonlinear_arith)
        requires
            inner == y * t / 1_000_000_000_000,
            0 <= y <= 1_000_000_000_000,
            0 <= t <= 1_000_000_000_000,
    ;
    let step = inner / k;
    assert(0 <= step <= inner && (2 <= k ==> step <= inner / 2)) by (nonlinear_arith)
        requires
            step == inner / k,
            k >= 1,
            inner >= 0,
    ;
}

/// Every direction is a unit vector, up to rounding: the corners of a
/// regular polygon lie on its circle.
pub proof fn lemma_direction_is_unit(k: int, n: int)
    requires
        0 <= k < n,
    ensures
        nearly_unit(direction_spec(k, n)),
{
    let eighth = (8 * k) / n;
    let rest = (8 * k) % n;
    assert(0 <= eighth < 8 && 0 <= rest < n) by (nonlinear_arith)
        requires
            eighth == (8 * k) / n,
            rest == (8 * k) % n,
            0 <= k < n,
    ;
    let part = if eighth % 2 == 0 {
        rest
    } else {
        n - rest
    };
    let x = folded_angle(k, n);
    assert(x == part * 785_398_163_397 / n);
    assert(0 <= x <= 785_398_163_397) by (nonlinear_arith)
        requires
            x == part * 785_398_163_397 / n,
            0 <= part <= n,
            0 < n,
    ;
    let y = x * x / 1_000_000_000_000;
    assert(0 <= y <= 1_000_000_000_000) by (nonlinear_arith)
        requires
            y == x * x / 1_000_000_000_000,
            0 <= x <= 785_398_163_397,
    ;
    let c3 = damp_spec(y, FINE as int, 56);
    lemma_damp_bounds(y, FINE as int, 56);
    let c2 = damp_spec(y, c3, 30);
    lemma_damp_bounds(y, c3, 30);
    let c1 = damp_spec(y, c2, 12);
    lemma_damp_bounds(y, c2, 12);
    lemma_damp_bounds(y, c1, 2);
    assert(cos_series(x) == damp_spec(y, c1, 2));
    assert(cos_series(x) > 0);
    let rough = Vector { x: cos_series(x), y: sin_series(x) };
    lemma_unit_length(rough);
    let u = unit_spec(rough)->0;
    assert(u.x * u.x + u.y * u.y == (-u.x) * (-u.x) + u.y * u.y == u.x * u.x + (-u.y) * (-u.y)
        == (-u.x) * (-u.x) + (-u.y) * (-u.y)) by (nonlinear_arith);
    assert(u.x * u.x + u.y * u.y == u.y * u.y + u.x * u.x);
}

/// One factor of a series in nested form.
fn damp(y: u128, t: u128, k: u128) -> (r: u128)
    requires
        y <= FINE,
        t <= FINE,
        1 <= k,
    ensures
        r == damp_spec(y as int, t as int, k as int),
        0 <= r <= FINE,
        2 <= k ==> FINE / 2 <= r,
{
    assert(y * t <= 1_000_000_000_000 * 1_000_000_000_000) by (nonlinear_arith)
        requires
            0 <= y <= 1_000_000_000_000,
            0 <= t <= 1_000_000_000_000,
    ;
    let inner: u128 = y * t / FINE;
    let step: u128 = inner / k;
    assert(step <= inner) by (nonlinear_arith)
        requires
            step == inner / k,
            k >= 1,
    ;
    assert(2 <= k ==> step <= inner / 2) by (nonlinear_arith)
        requires
            step == inner / k,
            k >= 1,
            inner >= 0,
    ;
    FINE - step
}

/// The unit vector at `k / n` of a turn.
fn direction(k: u64, n: u64) -> (r: Vec2)
    requires
        k < n,
    ensures
        r@ == direction_spec(k as int, n as int),
        nearly_unit(r@),
{
    let wide: u128 = 8 * (k as u128);
    let modulus: u128 = n as u128;
    let eighth: u128 = wide / modulus;
    let rest: u128 = wide % modulus;
    assert(eighth < 8) by (nonlinear_arith)
        requires
            eighth == wide / modulus,
            wide < 8 * modulus,
            modulus > 0,
    ;
    let part: u128 = if eighth % 2 == 0 {
        rest
    } else {
        modulus - rest
    };
    assert(part * EIGHTH_TURN <= modulus * EIGHTH_TURN) by (nonlinear_arith)
        requires
            0 <= part <= modulus,
    ;
    assert(modulus * EIGHTH_TURN <= 0xffff_ffff_ffff_ffff * 785_398_163_397) by (nonlinear_arith)
        requires
            0 <= modulus <= 0xffff_ffff_ffff_ffff,
            EIGHTH_TURN == 785_398_163_397,
    ;
    let x: u128 = part * EIGHTH_TURN / modulus;
    assert(x <= EIGHTH_TURN) by (nonlinear_arith)
        requires
            x == part * EIGHTH_TURN / (modulus as int),
            part * EIGHTH_TURN <= modulus * EIGHTH_TURN,
            modulus > 0,
    ;
    assert(x * x <= 785_398_163_397 * 785_398_163_397) by (nonlinear_arith)
        requires
            0 <= x <= 785_398_163_397,
    ;
    let y: u128 = x * x / FINE;
    let c = damp(y, damp(y, damp(y, damp(y, FINE, 56), 30), 12), 2);
    let t = damp(y, damp(y, damp(y, damp(y, FINE, 72), 42), 20), 6);
    assert(x * t <= 785_398_163_397 * 1_000_000_000_000) by (nonlinear_arith)
        requires
            0 <= x <= 785_398_163_397,
            0 <= t <= 1_000_000_000_000,
    ;
    let s: u128 = x * t / FINE;
    let rough = Vec2 { x: Scalar { raw: c as i64 }, y: Scalar { raw: s as i64 } };
    assert(rough@ == Vector { x: cos_series(x as int), y: sin_series(x as int) });
    proof {
        lemma_unit_length(rough@);
    }
    match rough.normalized() {
        None => Vec2::zero(),
        Some(unit) => {
            let ux = unit.x.raw;
            let uy = unit.y.raw;
            assert(ux * ux + uy * uy == (-ux) * (-ux) + uy * uy == ux * ux + (-uy) * (-uy) == (
            -ux) * (-ux) + (-uy) * (-uy)) by (nonlinear_arith);
            assert(ux * ux + uy * uy == uy * uy + ux * ux);
            let (px, py) = if eighth == 0 {
                (ux, uy)
            } else if eighth == 1 {
                (uy, ux)
            } else if eighth == 2 {
                (-uy, ux)
            } else if eighth == 3 {
                (-ux, uy)
            } else if eighth == 4 {
                (-ux, -uy)
            } else if eighth == 5 {
                (-uy, -ux)
            } else if eighth == 6 {
                (uy, -ux)
            } else {
                (ux, -uy)
            };
            Vec2 { x: Scalar { raw: px }, y: Scalar { raw: py } }
        },
    }
}

/// The corners of the regular polygon with `n` corners on the circle of
/// radius `radius` around the origin; no corners where `n` is not positive.
pub fn regular_polygon_corners(radius: Scalar, n: i64) -> (r: Vec<Vec2>)
    ensures
        views(r@) == regular_polygon(radius@, n as int),
        n >= 0 ==> r@.len() == n,
{
    let mut corners: Vec<Vec2> = Vec::new();
    if n <= 0 {
        assert(views(corners@) =~= regular_polygon(radius@, n as int));
        return corners;
    }
    let sides: u64 = n as u64;
    let mut k: u64 = 0;
    while k < sides
        invariant
            0 <= k <= sides,
            sides == n,
            corners@.len() == k,
            forall|j: int|
                0 <= j < k ==> #[trigger] corners@[j]@ == vector_scaled(
                    direction_spec(j, n as int),
                    radius@,
                ),
        decreases sides - k,
    {
        corners.push(direction(k, sides).scaled(radius));
        k += 1;
    }
    assert(views(corners@) =~= regular_polygon(radius@, n as int));
    corners
}

/// The corners of the rectangle of the given width and height around the
/// origin.
pub fn rectangle_corner_ring(width: Scalar, height: Scalar) -> (r: Vec<Vec2>)
    ensures
        views(r@) == rectangle_corners(width@, height@),
{
    let half_width = width.halved();
    let half_height = height.halved();
    let mut corners: Vec<Vec2> = Vec::new();
    corners.push(Vec2 { x: half_width, y: half_height });
    corners.push(Vec2 { x: half_width.negated(), y: half_height });
    corners.push(Vec2 { x: half_width.negated(), y: half_height.negated() });
    corners.push(Vec2 { x: half_width, y: half_height.negated() });
    proof {
        let ring = rectangle_corners(width@, height@);
        lemma_quotient_bounded(width@, 2);
        lemma_quotient_bounded(height@, 2);
        assert(magnitude(2) == 2);
        assert(magnitude(quotient(width@, 2)) * 2 <= magnitude(width@));
        assert(magnitude(quotient(height@, 2)) * 2 <= magnitude(height@));
        assert(negation_spec(quotient(width@, 2)) == -quotient(width@, 2));
        assert(negation_spec(quotient(height@, 2)) == -quotient(height@, 2));
        assert(ring.len() == 4);
        assert(corners@[0]@ == ring[0]);
        assert(corners@[1]@ == ring[1]);
        assert(corners@[2]@ == ring[2]);
        assert(corners@[3]@ == ring[3]);
        assert(views(corners@) =~= ring);
    }
    corners
}

/// The normals of a rectangle of positive size: down, right, up, left,
/// each of exactly unit length.
pub open spec fn rectangle_normals() -> Seq<Vector> {
    seq![
        Vector { x: 0, y: -(SCALE as int) },
        Vector { x: SCALE as int, y: 0 },
        Vector { x: 0, y: SCALE as int },
        Vector { x: -(SCALE as int), y: 0 },
    ]
}

/// A rectangle whose width and height are at least two raw steps is a
/// well-formed ring, and its normals lie along the coordinate axes.
pub proof fn lemma_rectangle_ring(width: int, height: int)
    requires
        2 <= width <= i64::MAX,
        2 <= height <= i64::MAX,
    ensures
        well_formed_ring(rectangle_corners(width, height)),
        ring_fault(rectangle_corners(width, height)) is None,
        normals_spec(rectangle_corners(width, height)) == rectangle_normals(),
{
    let ring = rectangle_corners(width, height);
    let w = quotient(width, 2);
    let h = quotient(height, 2);
    lemma_quotient_bounded(width, 2);
    lemma_quotient_bounded(height, 2);
    assert(magnitude(2) == 2);
    assert(w == width / 2 && h == height / 2);
    assert(1 <= w && 1 <= h);
    assert(ring.len() == 4);
    assert((0 + 1) % 4 == 1 && (1 + 1) % 4 == 2 && (2 + 1) % 4 == 3 && (3 + 1) % 4 == 0);
    assert(edge(ring, 0) == Vector { x: -2 * w, y: 0 });
    assert(edge(ring, 1) == Vector { x: 0, y: -2 * h });
    assert(edge(ring, 2) == Vector { x: 2 * w, y: 0 });
    assert(edge(ring, 3) == Vector { x: 0, y: 2 * h });
    assert(vector_perp(edge(ring, 0)) == Vector { x: 0, y: -2 * w });
    assert(vector_perp(edge(ring, 1)) == Vector { x: 2 * h, y: 0 });
    assert(vector_perp(edge(ring, 2)) == Vector { x: 0, y: 2 * w });
    assert(vector_perp(edge(ring, 3)) == Vector { x: -2 * h, y: 0 });
    lemma_unit_along_y(-2 * w);
    lemma_unit_along_x(2 * h);
    lemma_unit_along_y(2 * w);
    lemma_unit_along_x(-2 * h);
    assert forall|i: int| 0 <= i < ring.len() implies !degenerate_at(ring, i) by {
        if i == 0 {
        } else if i == 1 {
        } else if i == 2 {
        } else {
        }
    }
    lemma_ring_fault_none(ring);
    let normals = normals_spec(ring);
    assert(normals.len() == 4);
    assert(normals[0] == rectangle_normals()[0]);
    assert(normals[1] == rectangle_normals()[1]);
    assert(normals[2] == rectangle_normals()[2]);
    assert(normals[3] == rectangle_normals()[3]);
    assert(normals =~= rectangle_normals());
}

/// The faults of rectangles: a rectangle is a well-formed ring exactly
/// when neither half of its width nor half of its height rounds to
/// nothing. Else its first edge without length is the first one where the
/// width is too small, and the second one where only the height is.
pub proof fn lemma_rectangle_fault(width: int, height: int)
    requires
        i64::MIN <= width <= i64::MAX,
        i64::MIN <= height <= i64::MAX,
    ensures
        ring_fault(rectangle_corners(width, height)) == (if magnitude(width) < 2 {
            Some(GeometryError::DegenerateEdge { index: 0 })
        } else if magnitude(height) < 2 {
            Some(GeometryError::DegenerateEdge { index: 1 })
        } else {
            None
        }),
{
    let ring = rectangle_corners(width, height);
    let w = quotient(width, 2);
    let h = quotient(height, 2);
    lemma_quotient_bounded(width, 2);
    lemma_quotient_bounded(height, 2);
    assert(magnitude(2) == 2);
    assert(magnitude(w) == magnitude(width) / 2);
    assert(magnitude(h) == magnitude(height) / 2);
    assert(w == 0 <==> magnitude(width) < 2);
    assert(h == 0 <==> magnitude(height) < 2);
    assert(magnitude(w) * 2 <= magnitude(width));
    assert(magnitude(h) * 2 <= magnitude(height));
    assert(ring.len() == 4);
    assert((0 + 1) % 4 == 1 && (1 + 1) % 4 == 2 && (2 + 1) % 4 == 3 && (3 + 1) % 4 == 0);
    assert(degenerate_at(ring, 0) <==> w == 0);
    assert(degenerate_at(ring, 1) <==> h == 0);
    assert(degenerate_at(ring, 2) <==> w == 0);
    assert(degenerate_at(ring, 3) <==> h == 0);
    if w == 0 {
        assert(is_first_degenerate(ring, 0));
        lemma_ring_fault_at(ring, 0);
    } else if h == 0 {
        assert(is_first_degenerate(ring, 1));
        lemma_ring_fault_at(ring, 1);
    } else {
        assert forall|i: int| 0 <= i < ring.len() implies !degenerate_at(ring, i) by {
            if i == 0 {
            } else if i == 1 {
            } else if i == 2 {
            } else {
            }
        }
        lemma_ring_fault_none(ring);
    }
}

/// The direction of corner `k` of the polygon of sixteen corners that
/// stands for a circle.
pub open spec fn circle_direction(k: int) -> Vector {
    if k == 0 {
        Vector { x: 1_000_000, y: 0 }
    } else if k == 1 {
        Vector { x: 923_879, y: 382_683 }
    } else if k == 2 {
        Vector { x: 707_106, y: 707_106 }
    } else if k == 3 {
        Vector { x: 382_683, y: 923_879 }
    } else if k == 4 {
        Vector { x: 0, y: 1_000_000 }
    } else if k == 5 {
        Vector { x: -382_683, y: 923_879 }
    } else if k == 6 {
        Vector { x: -707_106, y: 707_106 }
    } else if k == 7 {
        Vector { x: -923_879, y: 382_683 }
    } else if k == 8 {
        Vector { x: -1_000_000, y: 0 }
    } else if k == 9 {
        Vector { x: -923_879, y: -382_683 }
    } else if k == 10 {
        Vector { x: -707_106, y: -707_106 }
    } else if k == 11 {
        Vector { x: -382_683, y: -923_879 }
    } else if k == 12 {
        Vector { x: 0, y: -1_000_000 }
    } else if k == 13 {
        Vector { x: 382_683, y: -923_879 }
    } else if k == 14 {
        Vector { x: 707_106, y: -707_106 }
    } else {
        Vector { x: 923_879, y: -382_683 }
    }
}

/// The sixteen directions of the polygon that stands for a circle.
pub open spec fn circle_directions() -> Seq<Vector> {
    Seq::new(16, |k: int| circle_direction(k))
}

/// The unit vectors at a sixteenth and at an eighth of a turn.
#[verifier::rlimit(40)]
proof fn lemma_folded_units()
    ensures
        unit_spec(Vector { x: cos_series(0), y: sin_series(0) }) == Some(
            Vector { x: 1_000_000, y: 0 },
        ),
        unit_spec(Vector { x: cos_series(392_699_081_698), y: sin_series(392_699_081_698) })
            == Some(Vector { x: 923_879, y: 382_683 }),
        unit_spec(Vector { x: cos_series(785_398_163_397), y: sin_series(785_398_163_397) })
            == Some(Vector { x: 707_106, y: 707_106 }),
{
    assert(cos_series(0) == 1_000_000_000_000 && sin_series(0) == 0);
    lemma_unit_along_x(1_000_000_000_000);
    let half: int = 392_699_081_698;
    let y1: int = 154_212_568_766;
    assert(half * half / 1_000_000_000_000 == y1);
    assert(damp_spec(y1, 1_000_000_000_000, 56) == 997_246_204_130);
    assert(damp_spec(y1, 997_246_204_130, 30) == 994_873_736_706);
    assert(damp_spec(y1, 994_873_736_706, 12) == 987_214_830_456);
    assert(damp_spec(y1, 987_214_830_456, 2) == 923_879_532_536);
    assert(damp_spec(y1, 1_000_000_000_000, 72) == 997_858_158_768);
    assert(damp_spec(y1, 997_858_158_768, 42) == 996_336_136_431);
    assert(damp_spec(y1, 996_336_136_431, 20) == 992_317_622_253);
    assert(damp_spec(y1, 992_317_622_253, 6) == 974_495_358_407);
    assert(half * 974_495_358_407 / 1_000_000_000_000 == 382_683_432_365);
    assert(cos_series(392_699_081_698) == 923_879_532_536);
    assert(sin_series(392_699_081_698) == 382_683_432_365);
    let whole: int = 785_398_163_397;
    let y2: int = 616_850_275_067;
    assert(whole * whole / 1_000_000_000_000 == y2);
    assert(damp_spec(y2, 1_000_000_000_000, 56) == 988_984_816_517);
    assert(damp_spec(y2, 988_984_816_517, 30) == 979_664_814_797);
    assert(damp_spec(y2, 979_664_814_797, 12) == 949_641_124_127);
    assert(damp_spec(y2, 949_641_124_127, 2) == 707_106_805_684);
    assert(damp_spec(y2, 1_000_000_000_000, 72) == 991_432_635_069);
    assert(damp_spec(y2, 991_432_635_069, 42) == 985_438_916_818);
    assert(damp_spec(y2, 985_438_916_818, 20) == 969_606_586_655);
    assert(damp_spec(y2, 969_606_586_655, 6) == 900_316_318_386);
    assert(whole * 900_316_318_386 / 1_000_000_000_000 == 707_106_782_936);
    assert(cos_series(785_398_163_397) == 707_106_805_684);
    assert(sin_series(785_398_163_397) == 707_106_782_936);
    assert(923_879_532_536int * 923_879_532_536int + 382_683_432_365int * 382_683_432_365int
        == 1_000_000_000_045_595_412_084_521int);
    lemma_unit_part_is(
        923_879_532_536,
        1_000_000_000_045_595_412_084_521,
        853_553_390_600,
        923_879,
    );
    lemma_unit_part_is(
        382_683_432_365,
        1_000_000_000_045_595_412_084_521,
        146_446_609_399,
        382_683,
    );
    assert(707_106_805_684int * 707_106_805_684int + 707_106_782_936int * 707_106_782_936int
        == 1_000_000_037_118_729_555_487_952int);
    lemma_unit_part_is(
        707_106_805_684,
        1_000_000_037_118_729_555_487_952,
        500_000_016_085,
        707_106,
    );
    lemma_unit_part_is(
        707_106_782_936,
        1_000_000_037_118_729_555_487_952,
        499_999_983_914,
        707_106,
    );
}

/// A number is a part of a unit vector where it passes the test of the
/// root, and the quotient under the root passes the test of the quotient.
proof fn lemma_unit_part_is(c: int, d: int, q: int, root: int)
    requires
        0 < d,
        q * d <= c * c * 1_000_000_000_000,
        c * c * 1_000_000_000_000 < (q + 1) * d,
        is_floor_sqrt(q, root),
    ensures
        unit_part(c, d) == root,
{
    let n = c * c * 1_000_000_000_000;
    assert(n / d == q) by (nonlinear_arith)
        requires
            0 < d,
            q * d <= n < (q + 1) * d,
    ;
    lemma_floor_sqrt_is(q, root);
}

/// The directions of the polygon of sixteen corners are those of the table.
pub proof fn lemma_circle_directions()
    ensures
        forall|k: int| 0 <= k < 16 ==> #[trigger] direction_spec(k, 16) == circle_direction(k),
        forall|k: int| 0 <= k < 16 ==> direction_spec(k, 16) == #[trigger] circle_directions()[k],
{
    lemma_folded_units();
    assert forall|k: int| 0 <= k < 16 implies #[trigger] direction_spec(k, 16)
        == circle_direction(k) by {
        assert(EIGHTH_TURN == 785_398_163_397);
        if k % 2 == 0 {
            assert((8 * k) % 16 == 0);
            if k % 4 == 0 {
                assert(folded_angle(k, 16) == 0);
            } else {
                assert(folded_angle(k, 16) == 785_398_163_397);
            }
        } else {
            assert((8 * k) % 16 == 8);
            assert(folded_angle(k, 16) == 392_699_081_698);
        }
    }
}

/// The products of the components of the sixteen directions with a
/// radius: each has the sign of the radius, or the other sign where the
/// component is negative, and is not clamped.
proof fn lemma_circle_products(radius: int)
    requires
        i64::MIN <= radius <= i64::MAX,
    ensures
        product_spec(0, radius) == 0,
        product_spec(382_683, radius) == signed_part(382_683, radius),
        product_spec(-382_683, radius) == -signed_part(382_683, radius),
        product_spec(707_106, radius) == signed_part(707_106, radius),
        product_spec(-707_106, radius) == -signed_part(707_106, radius),
        product_spec(923_879, radius) == signed_part(923_879, radius),
        product_spec(-923_879, radius) == -signed_part(923_879, radius),
        product_spec(1_000_000, radius) == radius,
        product_spec(-1_000_000, radius) == negation_spec(radius),
{
    assert(magnitude(1_000_000) == 1_000_000);
    assert(0 * radius == 0);
}

/// The part `c` of a radius, in millionths, with the sign of the radius.
pub open spec fn signed_part(c: int, radius: int) -> int {
    if radius >= 0 {
        c * magnitude(radius) / 1_000_000
    } else {
        -(c * magnitude(radius) / 1_000_000)
    }
}

/// Corner `k` of the polygon of sixteen corners and the corner after it
/// are two points, for every radius of two raw steps or more.
#[verifier::rlimit(40)]
proof fn lemma_circle_edge(radius: int, k: int)
    requires
        i64::MIN <= radius <= i64::MAX,
        2 <= magnitude(radius),
        0 <= k < 16,
    ensures
        vector_difference(
            vector_scaled(circle_direction(if k == 15 {
                0
            } else {
                k + 1
            }), radius),
            vector_scaled(circle_direction(k), radius),
        ) != Vector::zero(),
{
    lemma_circle_products(radius);
    let m = magnitude(radius);
    let small = 382_683 * m / 1_000_000;
    let middle = 707_106 * m / 1_000_000;
    let large = 923_879 * m / 1_000_000;
    assert(large < m);
    assert(small < middle) by {
        if m >= 4 {
        } else if m == 2 {
        } else {
            assert(m == 3);
        }
    }
    if k == 0 || k == 7 || k == 8 || k == 15 {
        // the first component goes from the radius to its large part, or back
    } else if k == 3 || k == 4 || k == 11 || k == 12 {
        // the second component does
    } else if k == 1 || k == 6 || k == 9 || k == 14 {
        // the second component goes from the small part to the middle one
    } else {
        // the first component does
    }
}

/// The polygon that stands for a circle is a well-formed ring exactly when
/// the radius is at least two raw steps, to either side. A radius of
/// nothing has its first edge without length, a radius of one raw step its
/// second.
#[verifier::rlimit(40)]
pub proof fn lemma_circle_fault(radius: int)
    requires
        i64::MIN <= radius <= i64::MAX,
    ensures
        ring_fault(regular_polygon(radius, 16)) == (if radius == 0 {
            Some(GeometryError::DegenerateEdge { index: 0 })
        } else if magnitude(radius) == 1 {
            Some(GeometryError::DegenerateEdge { index: 1 })
        } else {
            None
        }),
{
    let ring = regular_polygon(radius, 16);
    lemma_circle_directions();
    lemma_circle_products(radius);
    assert(ring.len() == 16);
    assert forall|k: int| 0 <= k < 16 implies #[trigger] ring[k] == vector_scaled(
        circle_direction(k),
        radius,
    ) by {
        assert(direction_spec(k, 16) == circle_directions()[k]);
    }
    if magnitude(radius) >= 2 {
        assert forall|k: int| 0 <= k < ring.len() implies !degenerate_at(ring, k) by {
            let next = if k == 15 {
                0
            } else {
                k + 1
            };
            assert((k + 1) % 16 == next);
            assert(ring[k] == vector_scaled(circle_direction(k), radius));
            assert(ring[next] == vector_scaled(circle_direction(next), radius));
            lemma_circle_edge(radius, k);
        }
        lemma_ring_fault_none(ring);
    } else if radius == 0 {
        assert(ring[0] == vector_scaled(circle_direction(0), radius));
        assert(ring[1] == vector_scaled(circle_direction(1), radius));
        assert((0 + 1) % 16 == 1);
        assert(is_first_degenerate(ring, 0));
        lemma_ring_fault_at(ring, 0);
    } else {
        assert(ring[0] == vector_scaled(circle_direction(0), radius));
        assert(ring[1] == vector_scaled(circle_direction(1), radius));
        assert(ring[2] == vector_scaled(circle_direction(2), radius));
        assert((0 + 1) % 16 == 1 && (1 + 1) % 16 == 2);
        assert(ring[0].x == radius);
        assert(ring[1] == Vector::zero());
        assert(ring[2] == Vector::zero());
        assert(!degenerate_at(ring, 0));
        assert(degenerate_at(ring, 1));
        assert(is_first_degenerate(ring, 1));
        lemma_ring_fault_at(ring, 1);
    }
}

} // verus!
