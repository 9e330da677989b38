//! Chunked voxel world with a verified entity simulation.
//!
//! The world is a sparse set of fixed-size chunks of integer block ids; a
//! registry of entities moves through it under a fixed-timestep integrator
//! with per-axis collision resolution, gravity and cooldowns. All world
//! coordinates are fixed-point integers in milli-units (one block is
//! `UNIT` milli-units), so every rule of the simulation is stated and
//! checked exactly.

pub mod codec;
pub mod control;
pub mod entities;
pub mod fixed;
pub mod gamemap;
pub mod interaction;
pub mod simulate;
pub mod target;
pub mod worldgen;
