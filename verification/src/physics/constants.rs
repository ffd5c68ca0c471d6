//! The constants of the simulation.

use vstd::prelude::*;

verus! {

/// The side of the square arena, as a raw count: 600 units.
pub const SIDE_LENGTH: i64 = 600_000_000;

/// The constant of gravitation times ten to the sixteenth, in whole units.
/// The factor brings the attraction between bodies of a few units of mass,
/// some hundred units apart, into view.
pub const GRAVITY: u128 = 667_430;

/// By how much the speed grows in a collision, as a raw count: 1.33.
pub const BOUNCE: i64 = 1_330_000;

/// The square of the reference speed of 500 units, divided by the drag
/// coefficient of 10: drag takes `|v| / DRAG_DIVISOR` of the velocity.
pub const DRAG_DIVISOR: u128 = 25_000;

/// The number of corners that stand for a circle.
pub const CIRCLE_SIDES: i64 = 16;

} // verus!
