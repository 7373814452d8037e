//! Grid, random-number and game-flow logic of a small Wolfenstein-style ray
//! caster.
//!
//! Everything that works in floating point (ray marching distances, shading,
//! player motion, particles) and everything that talks to the window or the
//! sound card lives in the binary under `app/`.

pub mod game;
pub mod level;
pub mod motion;
pub mod rng;
