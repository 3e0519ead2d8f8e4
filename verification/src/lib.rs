//! Simulation core of a grid-based tower-defense game.
//!
//! The library models the gameplay simulation on integer world
//! coordinates: cursor-driven placement of defensive structures on a
//! grid, wave-based spawning of adversaries that walk a fixed waypoint
//! path, targeting and projectile combat between placed structures and
//! adversaries, and the round bookkeeping that drives difficulty.
//! Rendering, asset loading and input polling are left to the embedding
//! program, which feeds plain values into the simulation each tick.

use vstd::prelude::*;

pub mod combat;
pub mod cursor;
pub mod enemy;
pub mod geom;
pub mod hud;
pub mod interpolation;
pub mod level;
pub mod projectile;
pub mod rng;
pub mod sim;
pub mod turret;
pub mod wave;

verus! {

/// Largest simulation tick rate, in ticks per second.
pub const TPS_LIMIT: i64 = 0x1_0000;

/// A valid simulation tick rate.
pub open spec fn tps_ok(tps: int) -> bool {
    1 <= tps <= TPS_LIMIT
}

} // verus!
