//! Plain data carried through the simulation: geometry, per-entity
//! components and the message shapes exchanged with clients.

pub mod client;
pub mod comp;
pub mod game;
