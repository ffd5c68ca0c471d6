//! The bodies of a simulation, in the order in which they were added.

use vstd::prelude::*;
use crate::physics::entities::PhysicsEntity;
use crate::physics::scalar::Scalar;

verus! {

/// All bodies. The simulation changes them in place on every tick; a
/// renderer reads them between ticks.
pub struct Scene {
    pub entities: Vec<PhysicsEntity>,
}

impl Scene {
    /// A scene without bodies.
    pub fn new() -> (r: Scene)
        ensures
            r.entities@.len() == 0,
    {
        Scene { entities: Vec::new() }
    }
}

impl Default for Scene {
    fn default() -> (r: Scene)
        ensures
            r.entities@.len() == 0,
    {
        Scene::new()
    }
}

/// Brings the scene up to date for the renderer after the time `_time`.
/// The bodies are their own record, so that nothing is left to do.
pub fn update_scene(_game: &Scene, _time: Scalar) {
}

} // verus!
