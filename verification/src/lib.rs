//! A discrete-time rigid-body simulation in the plane, on fixed-point numbers.
//!
//! Bodies are convex polygons with a position, a velocity and a mass. Each
//! tick resolves collisions found by the separating axis theorem, applies
//! pairwise gravitation and quadratic drag, and integrates positions with
//! the explicit Euler method. Every quantity is a `Scalar`, a signed count
//! of millionths, so that each result is a function of the inputs that the
//! contracts can state exactly.

pub mod physics;
pub mod rendering;
