//! Per-entity components and their plain carrier types.
//!
//! Position, velocity and acceleration share the shape of a [`Vector`] but
//! stay nominally distinct, so one cannot be mistaken for another.

use vstd::prelude::*;
use crate::model::game::Vector;
use crate::util::SeqId;

verus! {

/// Position of an actor's center, in world units.
#[derive(Clone, Copy, Debug, PartialEq, Eq, Structural)]
pub struct Pos {
    pub x: i32,
    pub y: i32,
}

/// Velocity in world units per tick.
#[derive(Clone, Copy, Debug, PartialEq, Eq, Structural)]
pub struct Vel {
    pub x: i32,
    pub y: i32,
}

/// Acceleration in world units per tick squared.
#[derive(Clone, Copy, Debug, PartialEq, Eq, Structural)]
pub struct Acc {
    pub x: i32,
    pub y: i32,
}

impl Pos {
    pub fn from_vector(v: Vector) -> (r: Self)
        ensures
            r.x == v.x && r.y == v.y,
    {
        Pos { x: v.x, y: v.y }
    }
}

impl Vel {
    pub fn from_vector(v: Vector) -> (r: Self)
        ensures
            r.x == v.x && r.y == v.y,
    {
        Vel { x: v.x, y: v.y }
    }
}

impl Acc {
    pub fn from_vector(v: Vector) -> (r: Self)
        ensures
            r.x == v.x && r.y == v.y,
    {
        Acc { x: v.x, y: v.y }
    }
}

/// Friction coefficient applied to the vertical velocity each tick.
#[derive(Clone, Copy, Debug, PartialEq, Eq, Structural)]
pub struct Friction(pub i32);

/// Marker: the entity bounces off other actors and the world's edges.
#[derive(Clone, Copy, Debug, PartialEq, Eq, Structural)]
pub struct Bounciness {}

/// What kind of actor an entity embodies.
#[derive(Clone, Copy, Debug, PartialEq, Eq, Structural)]
pub enum ActorKind {
    Player,
    Ball,
}

/// Game-visible identity of an entity.
#[derive(Clone, Copy, Debug, PartialEq, Eq, Structural)]
pub struct Actor {
    pub id: crate::model::game::Id,
    pub kind: ActorKind,
}

/// Marker: the entity still has to be materialized by the spawn system.
#[derive(Clone, Copy, Debug, PartialEq, Eq, Structural)]
pub struct ToSpawn;

/// Marker: the entity is to be torn down at the end of the tick.
#[derive(Clone, Copy, Debug, PartialEq, Eq, Structural)]
pub struct ToDespawn;

/// Handle to a transport send channel.  The transport owns the real
/// channel; the simulation only carries the handle around.
pub type SendChannel = u64;

/// Latest known state of one client key: `None` while the client has never
/// reported the key, `Some(pressed)` afterwards.
#[derive(Clone, Copy, Debug, PartialEq, Eq, Structural)]
pub struct KeyboardState {
    pub arrow_up: Option<bool>,
    pub arrow_down: Option<bool>,
}

impl KeyboardState {
    /// The state before any key event arrived.
    pub fn empty() -> (r: Self)
        ensures
            r.arrow_up == None::<bool> && r.arrow_down == None::<bool>,
    {
        KeyboardState { arrow_up: None, arrow_down: None }
    }
}

/// Timestamps of a completed ping round trip: the server clock when the
/// pong came back and the client clock when it was sent.
#[derive(Clone, Copy, Debug, PartialEq, Eq, Structural)]
pub struct PongStamp {
    pub server: u64,
    pub client: u64,
}

/// One outstanding or completed ping probe of a player.
#[derive(Clone, Copy, Debug, PartialEq, Eq, Structural)]
pub struct PingPong {
    pub ping_id: SeqId,
    pub sent: u64,
    pub pong: Option<PongStamp>,
}

/// Smoothed latency estimate of a player: one-way delay in milliseconds and
/// the estimated offset of the client clock.
#[derive(Clone, Copy, Debug, PartialEq, Eq, Structural)]
pub struct Delay {
    pub ping: usize,
    pub clock: i32,
}

/// Marker: the entity is due for a latency probe this round.
#[derive(Clone, Copy, Debug, PartialEq, Eq, Structural)]
pub struct Ping {}

/// A pong delivered by the transport, waiting to be folded into the
/// player's latency samples.
#[derive(Clone, Copy, Debug, PartialEq, Eq, Structural)]
pub struct Pong {
    pub ping_id: SeqId,
    pub timestamps: PongStamp,
}

/// Per-player connection state: the transport handle, a bounded history of
/// keyboard snapshots, the last applied input sequence number, the open
/// ping probes and the derived latency estimate.
#[derive(Clone, Debug, PartialEq, Eq)]
pub struct Player {
    pub send_channel: SendChannel,
    pub inputs: Vec<KeyboardState>,
    pub last_input: u32,
    pub pingpongs: Vec<PingPong>,
    pub delay: Delay,
}

impl Player {
    /// A freshly connected player: no inputs seen, no probes outstanding,
    /// no latency estimate yet.
    pub fn new(send_channel: SendChannel) -> (r: Self)
        ensures
            r.send_channel == send_channel,
            r.inputs@ =~= Seq::<KeyboardState>::empty(),
            r.last_input == 0,
            r.pingpongs@ =~= Seq::<PingPong>::empty(),
            r.delay == (Delay { ping: 0, clock: 0 }),
    {
        Player {
            send_channel,
            inputs: Vec::new(),
            last_input: 0,
            pingpongs: Vec::new(),
            delay: Delay { ping: 0, clock: 0 },
        }
    }
}

/// Inclusive per-axis limits for a vector-shaped quantity.
#[derive(Clone, Copy, Debug)]
pub struct Bounds<T> {
    pub min: T,
    pub max: T,
}

} // verus!
