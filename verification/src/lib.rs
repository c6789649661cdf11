//! A small simulation of autonomous agents on a bounded 2D map: circular
//! agents steer toward targets while deflecting around obstacles, and a
//! per-tick planner turns a stack of goals into concrete world updates.
//!
//! Scalars are fixed-point: one world unit is `fixed::SCALE` raw steps of an
//! `i64`. All geometry, steering, planning and world-update logic is verified;
//! randomness enters only through a narrow sampler interface.

pub mod collision;
pub mod colors;
pub mod controls;
pub mod fixed;
pub mod rng;
pub mod world_gen;
pub mod world_render;
pub mod world_update;
