//! A verified physics and level-decoding core for a side-scrolling
//! platformer sandbox.
//!
//! All world quantities (positions, velocities, rotations, time deltas) are
//! fixed-point numbers: `i64` values counting units of `1 / FX_SCALE`.
//! The engine's tuning constants are exact at this scale.

pub mod fx;
pub mod codec;
pub mod decode;
pub mod encode;
pub mod geometry;
pub mod hitbox;
pub mod level;
pub mod object;
pub mod player;
