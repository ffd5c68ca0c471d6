//! What the simulation shares with a renderer.

pub mod scene;
