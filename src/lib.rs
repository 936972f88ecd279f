//! A fixed-point two-dimensional particle simulation: gravity, drag, pairwise
//! and boundary repulsion, cursor forces, semi-implicit Euler integration and
//! reflecting boundaries.
use vstd::prelude::*;

pub mod config;
pub mod fixed;
pub mod laws;
pub mod math;
pub mod particle;
pub mod physics;
pub mod scene_data;

verus! {

pub const SCREEN_WIDTH: u32 = 1000;

pub const SCREEN_HEIGHT: u32 = 1000;

/// Screen height in world units (0.5 m).
pub const WORLD_HEIGHT: i64 = 500_000;

/// Screen width in world units: the screen's aspect ratio times `WORLD_HEIGHT`.
pub const WORLD_WIDTH: i64 = 500_000;

/// Side of one pixel in world units: `WORLD_HEIGHT / SCREEN_HEIGHT`.
pub const PIXEL_SIZE: i64 = 500;

pub const PARTICLE_COUNT: usize = 1000;

pub const TARGET_FPS: u32 = 10;

/// Acceleration toward (pull) or away from (push) the cursor: 3 m/s^2.
pub const CURSOR_FORCE: i64 = 3_000_000;

/// Reach of the cursor: 0.3 m.
pub const CURSOR_RADIUS: i64 = 300_000;

} // verus!
