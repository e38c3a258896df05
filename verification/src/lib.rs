//! Simulation core of a 2D arcade shooter.
//!
//! The library decides how enemies orbit a moving ellipse, how projectiles
//! and targets collide (with per-tick deduplication of destruction), how an
//! explosion plays out frame by frame, and how the player's alive/respawn
//! state evolves.  All geometry is carried in fixed-point milli-units
//! (1000 = one world unit) so that every rule is plain integer arithmetic.

use vstd::prelude::*;

pub mod math;
pub mod trig;
pub mod geom;
pub mod rng;
pub mod formation;
pub mod explosion;
pub mod player;
pub mod store;
pub mod flight;
pub mod motion;
pub mod collision;
pub mod enemy;
pub mod sim;

verus! {

/// Fixed-point scale: milli-units per world unit.
pub const MILLI: i64 = 1000;

/// Simulation ticks per second of simulated time.
pub const TICKS_PER_SECOND: i64 = 60;

/// Linear speed scale applied to unit velocities, in world units per second.
pub const BASE_SPEED: i64 = 500;

/// Scale applied to every sprite, in milli-units (500 = one half).
pub const SPRITE_SCALE_MILLI: i64 = 500;

/// How far beyond the playfield half-extent an auto-despawning entity may
/// drift before it is removed, in milli-units.
pub const DESPAWN_MARGIN: i64 = 200_000;

/// Cap on simultaneously live enemies.
pub const ENEMY_MAX: u32 = 2;

/// Enemies that share one orbit before a fresh one is drawn.
pub const FORMATION_MEMBERS_MAX: u32 = 2;

/// Cooldown between the player's death and respawn eligibility, in
/// milliseconds of simulated time.
pub const PLAYER_RESPAWN_DELAY_MS: i64 = 2000;

/// Frames of the explosion sheet; playback ends when the frame index
/// reaches this count.
pub const EXPLOSION_FRAME_COUNT: u32 = 16;

/// Period of the explosion frame timer, in milliseconds.
pub const EXPLOSION_FRAME_PERIOD_MS: i64 = 50;

/// One enemy-fire volley is drawn per tick with one chance in this many.
pub const ENEMY_FIRE_ONE_IN: i64 = 60;

/// Unscaled sprite extents, in milli-units.
pub const PLAYER_SIZE_W: i64 = 144_000;
pub const PLAYER_SIZE_H: i64 = 75_000;
pub const PLAYER_LASER_SIZE_W: i64 = 9_000;
pub const PLAYER_LASER_SIZE_H: i64 = 54_000;
pub const ENEMY_SIZE_W: i64 = 144_000;
pub const ENEMY_SIZE_H: i64 = 75_000;
pub const ENEMY_LASER_SIZE_W: i64 = 17_000;
pub const ENEMY_LASER_SIZE_H: i64 = 55_000;

/// Enemy lasers appear this far below the enemy, in milli-units.
pub const ENEMY_LASER_OFFSET_Y: i64 = 15_000;

} // verus!
