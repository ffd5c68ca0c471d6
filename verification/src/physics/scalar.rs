//! Fixed-point numbers: a `Scalar` counts millionths of a unit in an `i64`.
//!
//! Every operation is total. A result that does not fit is clamped to the
//! nearest representable value, and quotients round toward zero.

use vstd::prelude::*;

verus! {

/// How many raw steps make one unit.
pub const SCALE: i64 = 1_000_000;

/// The nearest value to `x` that an `i64` can hold.
pub open spec fn saturate(x: int) -> int {
    if x > i64::MAX {
        i64::MAX as int
    } else if x < i64::MIN {
        i64::MIN as int
    } else {
        x
    }
}

/// The absolute value of `x`.
pub open spec fn magnitude(x: int) -> int {
    if x >= 0 {
        x
    } else {
        -x
    }
}

/// The quotient of `a` by `b`, rounded toward zero.
pub open spec fn quotient(a: int, b: int) -> int
    recommends
        b != 0,
{
    if (a >= 0) == (b > 0) {
        magnitude(a) / magnitude(b)
    } else {
        -(magnitude(a) / magnitude(b))
    }
}

/// The raw sum of two raw values.
pub open spec fn sum_spec(a: int, b: int) -> int {
    saturate(a + b)
}

/// The raw difference of two raw values.
pub open spec fn difference_spec(a: int, b: int) -> int {
    saturate(a - b)
}

/// The raw negation of a raw value.
pub open spec fn negation_spec(a: int) -> int {
    saturate(-a)
}

/// The raw product of two raw values: `a * b / SCALE`, rounded toward zero.
pub open spec fn product_spec(a: int, b: int) -> int {
    saturate(quotient(a * b, SCALE as int))
}

/// The raw quotient of two raw values: `a * SCALE / b`, rounded toward zero.
pub open spec fn ratio_spec(a: int, b: int) -> int
    recommends
        b != 0,
{
    saturate(quotient(a * SCALE, b))
}

/// A quotient times the divisor is no larger in magnitude than what was
/// divided, and falls short of it by less than the divisor.
pub proof fn lemma_quotient_bounded(a: int, b: int)
    requires
        b != 0,
    ensures
        magnitude(quotient(a, b)) <= magnitude(a),
        magnitude(quotient(a, b)) * magnitude(b) <= magnitude(a),
        magnitude(a) < (magnitude(quotient(a, b)) + 1) * magnitude(b),
        magnitude(quotient(a, b)) == magnitude(a) / magnitude(b),
{
    let ma = magnitude(a);
    let mb = magnitude(b);
    assert(0 <= ma / mb <= ma && (ma / mb) * mb <= ma && ma < (ma / mb + 1) * mb)
        by (nonlinear_arith)
        requires
            ma >= 0,
            mb >= 1,
    ;
}

/// What rounding toward zero takes from a quotient is less than one step:
/// the quotient times the divisor differs from what was divided by less
/// than the divisor.
pub proof fn lemma_quotient_error(a: int, b: int)
    requires
        b > 0,
    ensures
        magnitude(a - quotient(a, b) * b) < b,
        magnitude(quotient(a, b)) * b <= magnitude(a),
{
    lemma_quotient_bounded(a, b);
    let q = magnitude(a) / b;
    assert(magnitude(b) == b);
    assert(magnitude(quotient(a, b)) == q);
    assert((-q) * b == -(q * b)) by (nonlinear_arith);
    assert((q + 1) * b == q * b + b) by (nonlinear_arith);
}

/// The magnitude of a product is at most the product of bounds on the
/// magnitudes of the factors.
pub proof fn lemma_product_bounded(a: int, b: int, bound_a: int, bound_b: int)
    requires
        magnitude(a) <= bound_a,
        magnitude(b) <= bound_b,
    ensures
        magnitude(a * b) <= bound_a * bound_b,
{
    assert(magnitude(a * b) <= bound_a * bound_b) by (nonlinear_arith)
        requires
            -bound_a <= a <= bound_a,
            -bound_b <= b <= bound_b,
            magnitude(a * b) == a * b || magnitude(a * b) == -(a * b),
    ;
}

/// Clamps a wide intermediate into the range of a raw value.
pub fn saturate_wide(x: i128) -> (r: i64)
    ensures
        r == saturate(x as int),
{
    if x > i64::MAX as i128 {
        i64::MAX
    } else if x < i64::MIN as i128 {
        i64::MIN
    } else {
        x as i64
    }
}

/// The quotient of two wide intermediates, rounded toward zero.
fn quotient_wide(a: i128, b: i128) -> (r: i128)
    requires
        b != 0,
        a != i128::MIN,
        b != i128::MIN,
    ensures
        r == quotient(a as int, b as int),
{
    let ma: u128 = if a >= 0 { a as u128 } else { (-a) as u128 };
    let mb: u128 = if b >= 0 { b as u128 } else { (-b) as u128 };
    let q: u128 = ma / mb;
    assert(q <= ma) by (nonlinear_arith)
        requires
            q == ma / mb,
            mb >= 1,
    ;
    if (a >= 0) == (b > 0) {
        q as i128
    } else {
        -(q as i128)
    }
}

/// A fixed-point number with six decimal places.
#[derive(Clone, Copy, Debug, PartialEq, Eq, Structural)]
pub struct Scalar {
    pub raw: i64,
}

impl View for Scalar {
    type V = int;

    open spec fn view(&self) -> int {
        self.raw as int
    }
}

impl Scalar {
    /// The number whose raw count is `raw`.
    pub fn from_raw(raw: i64) -> (r: Scalar)
        ensures
            r@ == raw,
    {
        Scalar { raw }
    }

    /// The whole number `n`, clamped where `n` units do not fit.
    pub fn from_int(n: i64) -> (r: Scalar)
        ensures
            r@ == saturate(n * SCALE),
    {
        assert(-0x8000_0000_0000_0000 * 1_000_000 <= n * 1_000_000 <= 0x7fff_ffff_ffff_ffff
            * 1_000_000) by (nonlinear_arith)
            requires
                -0x8000_0000_0000_0000 <= n <= 0x7fff_ffff_ffff_ffff,
        ;
        Scalar { raw: saturate_wide(n as i128 * SCALE as i128) }
    }

    /// Zero.
    pub fn zero() -> (r: Scalar)
        ensures
            r@ == 0,
    {
        Scalar { raw: 0 }
    }

    /// One unit.
    pub fn one() -> (r: Scalar)
        ensures
            r@ == SCALE,
    {
        Scalar { raw: SCALE }
    }

    /// The raw count.
    pub fn raw(self) -> (r: i64)
        ensures
            r == self@,
    {
        self.raw
    }

    /// `self + other`, clamped.
    pub fn plus(self, other: Scalar) -> (r: Scalar)
        ensures
            r@ == sum_spec(self@, other@),
    {
        Scalar { raw: saturate_wide(self.raw as i128 + other.raw as i128) }
    }

    /// `self - other`, clamped.
    pub fn minus(self, other: Scalar) -> (r: Scalar)
        ensures
            r@ == difference_spec(self@, other@),
    {
        Scalar { raw: saturate_wide(self.raw as i128 - other.raw as i128) }
    }

    /// `-self`, clamped: the negation of the least value is the greatest.
    pub fn negated(self) -> (r: Scalar)
        ensures
            r@ == negation_spec(self@),
    {
        Scalar { raw: saturate_wide(-(self.raw as i128)) }
    }

    /// `self * other`, rounded toward zero and clamped.
    pub fn times(self, other: Scalar) -> (r: Scalar)
        ensures
            r@ == product_spec(self@, other@),
    {
        let a: i128 = self.raw as i128;
        let b: i128 = other.raw as i128;
        assert(-0x4000_0000_0000_0000_0000_0000_0000_0000 <= a * b
            <= 0x4000_0000_0000_0000_0000_0000_0000_0000) by (nonlinear_arith)
            requires
                -0x8000_0000_0000_0000 <= a <= 0x7fff_ffff_ffff_ffff,
                -0x8000_0000_0000_0000 <= b <= 0x7fff_ffff_ffff_ffff,
        ;
        Scalar { raw: saturate_wide(quotient_wide(a * b, SCALE as i128)) }
    }

    /// `self / other`, rounded toward zero and clamped; `None` exactly when
    /// `other` is zero.
    pub fn divided_by(self, other: Scalar) -> (r: Option<Scalar>)
        ensures
            other@ == 0 ==> r is None,
            other@ != 0 ==> r is Some && r->0@ == ratio_spec(self@, other@),
    {
        if other.raw == 0 {
            return None;
        }
        let a: i128 = self.raw as i128;
        let b: i128 = other.raw as i128;
        assert(-0x8000_0000_0000_0000 * 1_000_000 <= a * 1_000_000 <= 0x7fff_ffff_ffff_ffff
            * 1_000_000) by (nonlinear_arith)
            requires
                -0x8000_0000_0000_0000 <= a <= 0x7fff_ffff_ffff_ffff,
        ;
        Some(Scalar { raw: saturate_wide(quotient_wide(a * (SCALE as i128), b)) })
    }

    /// Half of `self`, rounded toward zero.
    pub fn halved(self) -> (r: Scalar)
        ensures
            r@ == quotient(self@, 2),
    {
        Scalar { raw: saturate_wide(quotient_wide(self.raw as i128, 2)) }
    }
}

} // verus!
