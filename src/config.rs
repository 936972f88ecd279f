//! Tunable constants of the force model and the boundary resolver.
use vstd::prelude::*;
use crate::fixed::{in_range, SCALE, LIMIT};
use crate::{WORLD_HEIGHT, WORLD_WIDTH};

verus! {

/// Physical parameters, all fixed-point quantities.
#[derive(Clone, Copy, Debug, PartialEq, Eq, Structural)]
pub struct PhysicsConfig {
    /// Vertical acceleration applied to every particle (may be zero).
    pub gravity: i64,
    /// Linear drag: acceleration `-velocity * drag_coefficient / mass`.
    pub drag_coefficient: i64,
    /// Strength of the inverse-square repulsion between two particles.
    pub particle_force_scale: i64,
    /// Strength of the inverse-square repulsion from each wall.
    pub wall_force_scale: i64,
    /// Acceleration toward or away from the cursor within its reach.
    pub cursor_force: i64,
    /// Reach of the cursor.
    pub cursor_radius: i64,
    /// Fraction of velocity kept, reversed, on a bounce; below one.
    pub restitution: i64,
    pub world_width: i64,
    pub world_height: i64,
    /// Floor on the distance used in an inverse-square force.
    pub min_distance: i64,
    /// Each component of the displacement used between two coincident points.
    pub coincident_offset: i64,
    /// How far beyond each edge its virtual wall source sits.
    pub wall_offset: i64,
}

impl PhysicsConfig {
    /// The largest force that `scale` can produce, at `min_distance`, is representable.
    pub open spec fn force_scale_ok(self, scale: int) -> bool {
        0 <= scale && scale * SCALE * SCALE <= LIMIT * self.min_distance * self.min_distance
    }

    pub open spec fn wf(self) -> bool {
        &&& in_range(self.gravity as int)
        &&& 0 <= self.drag_coefficient <= LIMIT
        &&& self.force_scale_ok(self.particle_force_scale as int)
        &&& self.force_scale_ok(self.wall_force_scale as int)
        &&& 0 <= self.cursor_force <= LIMIT
        &&& 0 <= self.cursor_radius <= LIMIT
        &&& 0 <= self.restitution < SCALE
        &&& 0 < self.world_width <= LIMIT
        &&& 0 < self.world_height <= LIMIT
        &&& 0 < self.min_distance <= LIMIT
        &&& 0 < self.coincident_offset <= LIMIT
        &&& 0 <= self.wall_offset <= LIMIT
    }
}

impl Default for PhysicsConfig {
    /// No gravity, unit drag, restitution 0.1, particle scale 0.0002, wall
    /// scale 0.005, cursor 3 m/s^2 within 0.3 m, and 0.01 for the distance
    /// floor, the coincident displacement and the wall offset.
    fn default() -> (r: PhysicsConfig)
        ensures
            r.gravity == 0,
            r.drag_coefficient == SCALE,
            r.particle_force_scale == 200,
            r.wall_force_scale == 5_000,
            r.cursor_force == crate::CURSOR_FORCE,
            r.cursor_radius == crate::CURSOR_RADIUS,
            r.restitution == 100_000,
            r.world_width == WORLD_WIDTH,
            r.world_height == WORLD_HEIGHT,
            r.min_distance == 10_000,
            r.coincident_offset == 10_000,
            r.wall_offset == 10_000,
            r.wf(),
    {
        PhysicsConfig {
            gravity: 0,
            drag_coefficient: SCALE,
            particle_force_scale: 200,
            wall_force_scale: 5_000,
            cursor_force: crate::CURSOR_FORCE,
            cursor_radius: crate::CURSOR_RADIUS,
            restitution: 100_000,
            world_width: WORLD_WIDTH,
            world_height: WORLD_HEIGHT,
            min_distance: 10_000,
            coincident_offset: 10_000,
            wall_offset: 10_000,
        }
    }
}

} // verus!
