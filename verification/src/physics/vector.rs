//! Vectors in the plane, with fixed-point components.

use vstd::prelude::*;
use crate::physics::roots::{
    floor_sqrt, is_floor_sqrt, isqrt, lemma_floor_sqrt_exists, lemma_floor_sqrt_is,
};
use crate::physics::scalar::{
    difference_spec, lemma_product_bounded, lemma_quotient_error, magnitude, negation_spec,
    product_spec, quotient, ratio_spec, saturate, saturate_wide, sum_spec, Scalar, SCALE,
};

verus! {

/// The mathematical model of a `Vec2`: a pair of raw counts.
pub struct Vector {
    pub x: int,
    pub y: int,
}

/// A vector with fixed-point components.
#[derive(Clone, Copy, Debug, PartialEq, Eq, Structural)]
pub struct Vec2 {
    pub x: Scalar,
    pub y: Scalar,
}

impl View for Vec2 {
    type V = Vector;

    open spec fn view(&self) -> Vector {
        Vector { x: self.x@, y: self.y@ }
    }
}

impl Vector {
    /// The zero vector.
    pub open spec fn zero() -> Vector {
        Vector { x: 0, y: 0 }
    }

    /// Whether both components fit a `Scalar`.
    pub open spec fn representable(self) -> bool {
        &&& i64::MIN <= self.x <= i64::MAX
        &&& i64::MIN <= self.y <= i64::MAX
    }

    /// The `Vec2` that this vector models, where it is representable.
    pub open spec fn to_vec2(self) -> Vec2 {
        Vec2 { x: Scalar { raw: self.x as i64 }, y: Scalar { raw: self.y as i64 } }
    }
}

/// The models of a sequence of vectors, item by item.
pub open spec fn views(s: Seq<Vec2>) -> Seq<Vector> {
    Seq::new(s.len(), |i: int| s[i]@)
}

/// From this magnitude on, a component is shortened before it is squared.
pub const REDUCE_FROM: u128 = 17_592_186_044_416;

/// By how much an oversized vector is shortened.
pub const REDUCE_BY: u128 = 1_048_576;

/// `SCALE * SCALE`.
pub const SCALE_SQUARED: u128 = 1_000_000_000_000;

/// The component-wise sum, clamped.
pub open spec fn vector_sum(a: Vector, b: Vector) -> Vector {
    Vector { x: sum_spec(a.x, b.x), y: sum_spec(a.y, b.y) }
}

/// The component-wise difference, clamped.
pub open spec fn vector_difference(a: Vector, b: Vector) -> Vector {
    Vector { x: difference_spec(a.x, b.x), y: difference_spec(a.y, b.y) }
}

/// The opposite vector, clamped.
pub open spec fn vector_negation(a: Vector) -> Vector {
    Vector { x: negation_spec(a.x), y: negation_spec(a.y) }
}

/// The vector `a` with each component multiplied by the raw factor `k`.
pub open spec fn vector_scaled(a: Vector, k: int) -> Vector {
    Vector { x: product_spec(a.x, k), y: product_spec(a.y, k) }
}

/// The vector `a` with each component divided by the raw divisor `k`.
pub open spec fn vector_over(a: Vector, k: int) -> Vector
    recommends
        k != 0,
{
    Vector { x: ratio_spec(a.x, k), y: ratio_spec(a.y, k) }
}

/// The vector `a` turned a quarter turn counter-clockwise: `(-y, x)`.
pub open spec fn vector_perp(a: Vector) -> Vector {
    Vector { x: negation_spec(a.y), y: a.x }
}

/// The raw dot product: `(a.x * b.x + a.y * b.y) / SCALE`, rounded toward
/// zero once, then clamped.
pub open spec fn dot_spec(a: Vector, b: Vector) -> int {
    saturate(quotient(a.x * b.x + a.y * b.y, SCALE as int))
}

/// The square of the Euclidean length, in squares of raw steps; exact.
pub open spec fn squared_length(a: Vector) -> int {
    a.x * a.x + a.y * a.y
}

/// The raw Euclidean length, rounded down, then clamped.
pub open spec fn length_spec(a: Vector) -> int {
    saturate(floor_sqrt(squared_length(a)))
}

/// Whether a component of `a` is too large to be squared as it stands.
pub open spec fn oversized(a: Vector) -> bool {
    magnitude(a.x) >= REDUCE_FROM || magnitude(a.y) >= REDUCE_FROM
}

/// The magnitude `m` of a component, shortened where the vector is oversized.
pub open spec fn reduced(m: int, big: bool) -> int {
    if big {
        m / (REDUCE_BY as int)
    } else {
        m
    }
}

/// The magnitude of one component of the unit vector, given the magnitude
/// `c` of that component and the squared length `d`: `SCALE * c / sqrt(d)`,
/// rounded down.
pub open spec fn unit_part(c: int, d: int) -> int
    recommends
        0 <= c,
        0 < d,
{
    floor_sqrt(c * c * (SCALE_SQUARED as int) / d)
}

/// `m` with the sign of `like`.
pub open spec fn signed_like(m: int, like: int) -> int {
    if like < 0 {
        -m
    } else {
        m
    }
}

/// The unit vector in the direction of `a`, each component rounded toward
/// zero; `None` for the zero vector.
pub open spec fn unit_spec(a: Vector) -> Option<Vector> {
    if a.x == 0 && a.y == 0 {
        None
    } else {
        let big = oversized(a);
        let cx = reduced(magnitude(a.x), big);
        let cy = reduced(magnitude(a.y), big);
        let d = cx * cx + cy * cy;
        Some(
            Vector {
                x: signed_like(unit_part(cx, d), a.x),
                y: signed_like(unit_part(cy, d), a.y),
            },
        )
    }
}

/// The magnitude of a raw value, as an unsigned number.
pub fn magnitude_of(x: i64) -> (r: u128)
    ensures
        r == magnitude(x as int),
        r <= 0x8000_0000_0000_0000,
{
    if x >= 0 {
        x as u128
    } else {
        (-(x as i128)) as u128
    }
}

/// One component of a unit vector, from shortened magnitudes.
fn unit_part_of(c: u128, d: u128) -> (r: i64)
    requires
        c < REDUCE_FROM,
        0 < d,
        c * c <= d,
    ensures
        r == unit_part(c as int, d as int),
        0 <= r <= SCALE,
{
    assert(c * c <= 17_592_186_044_415 * 17_592_186_044_415) by (nonlinear_arith)
        requires
            0 <= c <= 17_592_186_044_415,
    ;
    let square: u128 = c * c;
    assert(square * 1_000_000_000_000 <= 17_592_186_044_415 * 17_592_186_044_415
        * 1_000_000_000_000) by (nonlinear_arith)
        requires
            0 <= square <= 17_592_186_044_415 * 17_592_186_044_415,
    ;
    let q: u128 = (square * SCALE_SQUARED) / d;
    assert(q <= 1_000_000_000_000) by (nonlinear_arith)
        requires
            q == (square * 1_000_000_000_000) / (d as int),
            0 <= square <= d,
            0 < d,
    ;
    let r = isqrt(q);
    assert(r <= 1_000_000) by (nonlinear_arith)
        requires
            r * r <= q,
            q <= 1_000_000_000_000,
            0 <= r,
    ;
    r as i64
}

impl Vec2 {
    /// The vector with the given components.
    pub fn new(x: Scalar, y: Scalar) -> (r: Vec2)
        ensures
            r.x == x,
            r.y == y,
    {
        Vec2 { x, y }
    }

    /// The zero vector.
    pub fn zero() -> (r: Vec2)
        ensures
            r@ == Vector::zero(),
    {
        Vec2 { x: Scalar::zero(), y: Scalar::zero() }
    }

    /// `self + other`, component by component.
    pub fn plus(self, other: Vec2) -> (r: Vec2)
        ensures
            r@ == vector_sum(self@, other@),
    {
        Vec2 { x: self.x.plus(other.x), y: self.y.plus(other.y) }
    }

    /// `self - other`, component by component.
    pub fn minus(self, other: Vec2) -> (r: Vec2)
        ensures
            r@ == vector_difference(self@, other@),
    {
        Vec2 { x: self.x.minus(other.x), y: self.y.minus(other.y) }
    }

    /// `-self`.
    pub fn negated(self) -> (r: Vec2)
        ensures
            r@ == vector_negation(self@),
    {
        Vec2 { x: self.x.negated(), y: self.y.negated() }
    }

    /// `self` with each component multiplied by `k`.
    pub fn scaled(self, k: Scalar) -> (r: Vec2)
        ensures
            r@ == vector_scaled(self@, k@),
    {
        Vec2 { x: self.x.times(k), y: self.y.times(k) }
    }

    /// `self` with each component divided by `k`; `None` exactly when `k`
    /// is zero.
    pub fn over(self, k: Scalar) -> (r: Option<Vec2>)
        ensures
            k@ == 0 ==> r is None,
            k@ != 0 ==> r is Some && r->0@ == vector_over(self@, k@),
    {
        match (self.x.divided_by(k), self.y.divided_by(k)) {
            (Some(x), Some(y)) => Some(Vec2 { x, y }),
            _ => None,
        }
    }

    /// `self` turned a quarter turn counter-clockwise.
    pub fn perp(self) -> (r: Vec2)
        ensures
            r@ == vector_perp(self@),
    {
        Vec2 { x: self.y.negated(), y: self.x }
    }

    /// The dot product of `self` and `other`.
    pub fn dot(self, other: Vec2) -> (r: Scalar)
        ensures
            r@ == dot_spec(self@, other@),
    {
        let ax: i128 = self.x.raw as i128;
        let ay: i128 = self.y.raw as i128;
        let bx: i128 = other.x.raw as i128;
        let by: i128 = other.y.raw as i128;
        assert(-0x4000_0000_0000_0000_0000_0000_0000_0000 < ax * bx
            <= 0x4000_0000_0000_0000_0000_0000_0000_0000) by (nonlinear_arith)
            requires
                -0x8000_0000_0000_0000 <= ax <= 0x7fff_ffff_ffff_ffff,
                -0x8000_0000_0000_0000 <= bx <= 0x7fff_ffff_ffff_ffff,
        ;
        assert(-0x4000_0000_0000_0000_0000_0000_0000_0000 < ay * by
            <= 0x4000_0000_0000_0000_0000_0000_0000_0000) by (nonlinear_arith)
            requires
                -0x8000_0000_0000_0000 <= ay <= 0x7fff_ffff_ffff_ffff,
                -0x8000_0000_0000_0000 <= by <= 0x7fff_ffff_ffff_ffff,
        ;
        let px: i128 = ax * bx;
        let py: i128 = ay * by;
        match px.checked_add(py) {
            Some(sum) => Scalar { raw: saturate_wide(sum / (SCALE as i128)) },
            None => Scalar { raw: i64::MAX },
        }
    }

    /// The square of the Euclidean length of `self`, in squares of raw
    /// steps. It is exact, and nothing only for the zero vector.
    pub fn length_squared(self) -> (r: u128)
        ensures
            r == squared_length(self@),
            r == 0 <==> self@ == Vector::zero(),
    {
        let mx = magnitude_of(self.x.raw);
        let my = magnitude_of(self.y.raw);
        assert(mx * mx <= 0x8000_0000_0000_0000 * 0x8000_0000_0000_0000) by (nonlinear_arith)
            requires
                0 <= mx <= 0x8000_0000_0000_0000,
        ;
        assert(my * my <= 0x8000_0000_0000_0000 * 0x8000_0000_0000_0000) by (nonlinear_arith)
            requires
                0 <= my <= 0x8000_0000_0000_0000,
        ;
        assert(mx * mx == self.x.raw * self.x.raw && (mx * mx == 0 <==> mx == 0))
            by (nonlinear_arith)
            requires
                mx == self.x.raw || mx == -self.x.raw,
        ;
        assert(my * my == self.y.raw * self.y.raw && (my * my == 0 <==> my == 0))
            by (nonlinear_arith)
            requires
                my == self.y.raw || my == -self.y.raw,
        ;
        mx * mx + my * my
    }

    /// The Euclidean length of `self`, rounded down.
    pub fn length(self) -> (r: Scalar)
        ensures
            r@ == length_spec(self@),
    {
        let root = isqrt(self.length_squared());
        if root > i64::MAX as u64 {
            Scalar { raw: i64::MAX }
        } else {
            Scalar { raw: root as i64 }
        }
    }

    /// The unit vector in the direction of `self`; `None` exactly when
    /// `self` is the zero vector.
    pub fn normalized(self) -> (r: Option<Vec2>)
        ensures
            match r {
                Some(u) => unit_spec(self@) == Some(u@),
                None => unit_spec(self@) is None,
            },
    {
        if self.x.raw == 0 && self.y.raw == 0 {
            return None;
        }
        let mx = magnitude_of(self.x.raw);
        let my = magnitude_of(self.y.raw);
        let big = mx >= REDUCE_FROM || my >= REDUCE_FROM;
        let cx: u128 = if big { mx / REDUCE_BY } else { mx };
        let cy: u128 = if big { my / REDUCE_BY } else { my };
        assert(cx < REDUCE_FROM && cy < REDUCE_FROM);
        assert(cx > 0 || cy > 0);
        assert(cx * cx <= 17_592_186_044_415 * 17_592_186_044_415) by (nonlinear_arith)
            requires
                0 <= cx <= 17_592_186_044_415,
        ;
        assert(cy * cy <= 17_592_186_044_415 * 17_592_186_044_415) by (nonlinear_arith)
            requires
                0 <= cy <= 17_592_186_044_415,
        ;
        assert(cx * cx + cy * cy > 0) by (nonlinear_arith)
            requires
                cx > 0 || cy > 0,
                cx >= 0,
                cy >= 0,
        ;
        let d: u128 = cx * cx + cy * cy;
        let ux = unit_part_of(cx, d);
        let uy = unit_part_of(cy, d);
        let x = if self.x.raw < 0 { -ux } else { ux };
        let y = if self.y.raw < 0 { -uy } else { uy };
        Some(Vec2 { x: Scalar { raw: x }, y: Scalar { raw: y } })
    }
}

/// A vector and its model stand for each other: the model of a vector is
/// representable and gives the vector back, and a representable model is
/// the model of the vector that it gives.
pub proof fn lemma_model_round_trip(a: Vec2, m: Vector)
    ensures
        a@.representable(),
        a@.to_vec2() == a,
        m.representable() ==> m.to_vec2()@ == m,
{
}

/// Whether the length of `u` is one unit, up to rounding: between
/// `1 - 2 / SCALE` and `1`.
pub open spec fn nearly_unit(u: Vector) -> bool {
    &&& (SCALE - 2) * (SCALE - 2) <= u.x * u.x + u.y * u.y
    &&& u.x * u.x + u.y * u.y <= SCALE * SCALE
}

/// What rounding down leaves of one component of a unit vector: with `p`
/// the square of the component and `d` the squared length, the root `u` of
/// `p * SCALE^2 / d` has `u^2 * d <= p * SCALE^2 < (u + 1)^2 * d`, so that
/// `u` is `SCALE * sqrt(p / d)`, rounded down.
pub proof fn lemma_unit_part_bounds(p: int, d: int)
    requires
        0 <= p,
        0 < d,
    ensures
        0 <= floor_sqrt(p * (SCALE_SQUARED as int) / d),
        floor_sqrt(p * (SCALE_SQUARED as int) / d) * floor_sqrt(p * (SCALE_SQUARED as int) / d)
            * d <= p * SCALE_SQUARED,
        p * SCALE_SQUARED < (floor_sqrt(p * (SCALE_SQUARED as int) / d) + 1) * (floor_sqrt(
            p * (SCALE_SQUARED as int) / d,
        ) + 1) * d,
{
    let n = p * (SCALE_SQUARED as int);
    assert(n >= 0) by (nonlinear_arith)
        requires
            n == p * 1_000_000_000_000,
            p >= 0,
    ;
    let q = n / d;
    assert(q >= 0 && q * d <= n && n < (q + 1) * d) by (nonlinear_arith)
        requires
            q == n / d,
            n >= 0,
            d > 0,
    ;
    lemma_floor_sqrt_exists(q);
    let u = floor_sqrt(q);
    assert(u * u * d <= q * d) by (nonlinear_arith)
        requires
            u * u <= q,
            d > 0,
    ;
    assert((q + 1) * d <= (u + 1) * (u + 1) * d) by (nonlinear_arith)
        requires
            q + 1 <= (u + 1) * (u + 1),
            d > 0,
    ;
}

/// A unit vector has unit length, up to rounding.
pub proof fn lemma_unit_length(a: Vector)
    requires
        a != Vector::zero(),
    ensures
        unit_spec(a) is Some,
        nearly_unit(unit_spec(a)->0),
        magnitude(unit_spec(a)->0.x) <= SCALE,
        magnitude(unit_spec(a)->0.y) <= SCALE,
{
    let big = oversized(a);
    let cx = reduced(magnitude(a.x), big);
    let cy = reduced(magnitude(a.y), big);
    assert(cx >= 0 && cy >= 0 && (cx > 0 || cy > 0));
    let px = cx * cx;
    let py = cy * cy;
    assert(px >= 0 && py >= 0 && px + py > 0) by (nonlinear_arith)
        requires
            px == cx * cx,
            py == cy * cy,
            cx >= 0,
            cy >= 0,
            cx > 0 || cy > 0,
    ;
    let d = px + py;
    lemma_unit_part_bounds(px, d);
    lemma_unit_part_bounds(py, d);
    let s = SCALE as int;
    let ux = unit_part(cx, d);
    let uy = unit_part(cy, d);
    assert(cx * cx * (SCALE_SQUARED as int) == px * SCALE_SQUARED);
    assert(cy * cy * (SCALE_SQUARED as int) == py * SCALE_SQUARED);
    assert(ux == floor_sqrt(px * (SCALE_SQUARED as int) / d));
    assert(uy == floor_sqrt(py * (SCALE_SQUARED as int) / d));
    let low = ux * ux + uy * uy;
    let high = (ux + 1) * (ux + 1) + (uy + 1) * (uy + 1);
    assert(low * d <= s * s * d) by (nonlinear_arith)
        requires
            low == ux * ux + uy * uy,
            ux * ux * d <= px * 1_000_000_000_000,
            uy * uy * d <= py * 1_000_000_000_000,
            d == px + py,
            s == 1_000_000,
    ;
    assert(low <= s * s) by (nonlinear_arith)
        requires
            low * d <= s * s * d,
            d > 0,
    ;
    assert(s * s * d < high * d) by (nonlinear_arith)
        requires
            high == (ux + 1) * (ux + 1) + (uy + 1) * (uy + 1),
            px * 1_000_000_000_000 < (ux + 1) * (ux + 1) * d,
            py * 1_000_000_000_000 < (uy + 1) * (uy + 1) * d,
            d == px + py,
            s == 1_000_000,
    ;
    assert(s * s < high) by (nonlinear_arith)
        requires
            s * s * d < high * d,
            d > 0,
    ;
    assert(ux <= s && uy <= s) by (nonlinear_arith)
        requires
            ux * ux + uy * uy <= s * s,
            ux >= 0,
            uy >= 0,
            s >= 0,
    ;
    assert(2 * (ux + uy) < 3 * s) by (nonlinear_arith)
        requires
            ux * ux + uy * uy <= s * s,
            ux >= 0,
            uy >= 0,
            s > 0,
    ;
    assert(high == low + 2 * (ux + uy) + 2) by (nonlinear_arith)
        requires
            high == (ux + 1) * (ux + 1) + (uy + 1) * (uy + 1),
            low == ux * ux + uy * uy,
    ;
    assert((s - 2) * (s - 2) == s * s - 4 * s + 4) by (nonlinear_arith);
    let u = unit_spec(a)->0;
    assert(u.x * u.x == ux * ux) by (nonlinear_arith)
        requires
            u.x == ux || u.x == -ux,
    ;
    assert(u.y * u.y == uy * uy) by (nonlinear_arith)
        requires
            u.y == uy || u.y == -uy,
    ;
}

/// The opposite of a vector.
pub open spec fn opposite(a: Vector) -> Vector {
    Vector { x: -a.x, y: -a.y }
}

/// The unit vector of the opposite vector is the opposite unit vector.
pub proof fn lemma_unit_of_opposite(a: Vector)
    requires
        a != Vector::zero(),
    ensures
        unit_spec(a) is Some,
        unit_spec(opposite(a)) == Some(opposite(unit_spec(a)->0)),
{
    let big = oversized(a);
    let cx = reduced(magnitude(a.x), big);
    let cy = reduced(magnitude(a.y), big);
    let d = cx * cx + cy * cy;
    assert(oversized(opposite(a)) == big);
    assert(d > 0) by (nonlinear_arith)
        requires
            d == cx * cx + cy * cy,
            cx >= 0,
            cy >= 0,
            cx > 0 || cy > 0,
    ;
    assert(0 * 0 * (SCALE_SQUARED as int) / d == 0) by (nonlinear_arith)
        requires
            d > 0,
    ;
    assert(is_floor_sqrt(0, 0));
    lemma_floor_sqrt_is(0, 0);
    assert(unit_part(0, d) == 0);
}

/// A unit vector, multiplied by a strength that is not negative, turns
/// into its opposite when the unit vector does.
pub proof fn lemma_scaled_opposite(u: Vector, k: int)
    requires
        magnitude(u.x) <= SCALE,
        magnitude(u.y) <= SCALE,
        0 <= k <= i64::MAX,
    ensures
        vector_scaled(opposite(u), k) == opposite(vector_scaled(u, k)),
{
    lemma_part_opposite(u.x, k);
    lemma_part_opposite(u.y, k);
}

/// The product of the opposite of a component of a unit vector with a
/// strength is the opposite of the product.
proof fn lemma_part_opposite(x: int, k: int)
    requires
        magnitude(x) <= SCALE,
        0 <= k <= i64::MAX,
    ensures
        product_spec(-x, k) == -product_spec(x, k),
{
    let n = x * k;
    assert((-x) * k == -n) by (nonlinear_arith)
        requires
            n == x * k,
    ;
    lemma_product_bounded(x, k, SCALE as int, k);
    lemma_quotient_error(n, SCALE as int);
    lemma_quotient_error(-n, SCALE as int);
    assert(magnitude(-n) == magnitude(n));
    assert(magnitude(SCALE as int) == SCALE);
    assert(quotient(-n, SCALE as int) == -quotient(n, SCALE as int));
}

/// The unit vector of a vector along the second axis points the same way
/// and has exactly unit length.
pub proof fn lemma_unit_along_y(y: int)
    requires
        y != 0,
    ensures
        unit_spec(Vector { x: 0, y }) == Some(Vector { x: 0, y: signed_like(SCALE as int, y) }),
{
    let a = Vector { x: 0, y };
    let big = oversized(a);
    let cy = reduced(magnitude(y), big);
    assert(cy > 0);
    lemma_axis_parts(cy);
}

/// The unit vector of a vector along the first axis points the same way
/// and has exactly unit length.
pub proof fn lemma_unit_along_x(x: int)
    requires
        x != 0,
    ensures
        unit_spec(Vector { x, y: 0 }) == Some(Vector { x: signed_like(SCALE as int, x), y: 0 }),
{
    let a = Vector { x, y: 0 };
    let big = oversized(a);
    let cx = reduced(magnitude(x), big);
    assert(cx > 0);
    lemma_axis_parts(cx);
}

/// The parts of the unit vector of a vector with the one component `c`.
proof fn lemma_axis_parts(c: int)
    requires
        c > 0,
    ensures
        unit_part(c, 0 * 0 + c * c) == SCALE,
        unit_part(c, c * c + 0 * 0) == SCALE,
        unit_part(0, 0 * 0 + c * c) == 0,
        unit_part(0, c * c + 0 * 0) == 0,
{
    let d = c * c;
    assert(d > 0) by (nonlinear_arith)
        requires
            d == c * c,
            c > 0,
    ;
    assert(d * (SCALE_SQUARED as int) / d == SCALE_SQUARED) by (nonlinear_arith)
        requires
            d > 0,
    ;
    assert(0 * 0 * (SCALE_SQUARED as int) / d == 0) by (nonlinear_arith)
        requires
            d > 0,
    ;
    assert(is_floor_sqrt(SCALE_SQUARED as int, SCALE as int));
    lemma_floor_sqrt_is(SCALE_SQUARED as int, SCALE as int);
    assert(is_floor_sqrt(0, 0));
    lemma_floor_sqrt_is(0, 0);
}

/// A multiple of the scale, divided by the scale, is the multiplier.
pub proof fn lemma_quotient_of_multiple(x: int)
    ensures
        quotient(SCALE * x, SCALE as int) == x,
        quotient(-(SCALE as int) * x, SCALE as int) == -x,
{
    let s = SCALE as int;
    let m = magnitude(x);
    assert(magnitude(s * x) == s * m && magnitude(-s * x) == s * m) by (nonlinear_arith)
        requires
            s == 1_000_000,
            m == magnitude(x),
    ;
    assert((s * m) / s == m) by (nonlinear_arith)
        requires
            s == 1_000_000,
            m >= 0,
    ;
    assert((s * x >= 0 <==> x >= 0) && (-s * x >= 0 <==> x <= 0)) by (nonlinear_arith)
        requires
            s == 1_000_000,
    ;
    assert(magnitude(s) == s);
}

/// The dot product with a unit vector along a coordinate axis picks the
/// component along that axis.
pub proof fn lemma_dot_along_axes(v: Vector)
    requires
        -i64::MAX <= v.x <= i64::MAX,
        -i64::MAX <= v.y <= i64::MAX,
    ensures
        dot_spec(Vector { x: SCALE as int, y: 0 }, v) == v.x,
        dot_spec(Vector { x: -(SCALE as int), y: 0 }, v) == -v.x,
        dot_spec(Vector { x: 0, y: SCALE as int }, v) == v.y,
        dot_spec(Vector { x: 0, y: -(SCALE as int) }, v) == -v.y,
{
    lemma_quotient_of_multiple(v.x);
    lemma_quotient_of_multiple(v.y);
    assert(0 * v.x == 0 && 0 * v.y == 0);
    assert(SCALE * v.x + 0 * v.y == SCALE * v.x);
    assert(-(SCALE as int) * v.x + 0 * v.y == -(SCALE as int) * v.x);
    assert(0 * v.x + SCALE * v.y == SCALE * v.y);
    assert(0 * v.x + -(SCALE as int) * v.y == -(SCALE as int) * v.y);
}

} // verus!
