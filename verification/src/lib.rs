//! Simulation core of a small real-time multiplayer paddle game server.
//!
//! The crate owns the authoritative game state: a spatial-hash collision
//! world, sparse component storage for the simulated actors, the systems
//! that advance them each fixed-size tick, and the per-player latency
//! estimation.  Transport, serialization and the wall clock live outside;
//! they hand plain values in and take plain values back.

pub mod bootstrap;
pub mod collision;
pub mod ecs;
pub mod model;
pub mod registry;
pub mod system;
pub mod util;
