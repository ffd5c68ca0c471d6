//! Numbers, vectors, shapes and the rules that move them.

pub mod constants;
pub mod scalar;
pub mod roots;
pub mod vector;
pub mod geometry;
pub mod entities;
pub mod interactions;
pub mod laws;
