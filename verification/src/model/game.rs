//! The basic game-level vocabulary: actor identity and 2-d integer vectors.

use vstd::prelude::*;

verus! {

/// Stable identity of a simulated actor.  The transport assigns one per
/// connection and the simulation treats it as opaque.
pub type Id = u64;

/// A 2-d integer vector, the common shape of positions, velocities and
/// accelerations.
#[derive(Clone, Copy, Debug, PartialEq, Eq, Structural)]
pub struct Vector {
    pub x: i32,
    pub y: i32,
}

} // verus!
