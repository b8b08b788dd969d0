//! Simulation core of a Breakout-style arcade game: a fixed-timestep physics
//! and collision engine that moves a ball, detects impacts against a paddle,
//! walls and a grid of destructible bricks, updates a score and emits
//! collision events.
//!
//! All coordinates, sizes and velocities are fixed-point integers: a caller
//! picks a scale (for instance one millionth of a world unit) and states every
//! configuration constant in it. Velocities are lengths per second; the fixed
//! timestep is handed to each tick as a fraction of a second.

pub mod fixed;
pub mod geometry;
pub mod layout;
pub mod sim;
pub mod world;
