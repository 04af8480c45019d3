//! Shapes of the messages exchanged with clients.
//!
//! Encoding them onto the wire is a transport concern; the simulation only
//! fixes which fields each message carries.

use vstd::prelude::*;
use crate::model::comp::{Actor, Delay, Pos, Vel, SendChannel};
use crate::model::game::Id;
use crate::util::SeqId;

verus! {

/// Kind tag of an outbound message.
#[derive(Clone, Copy, Debug, PartialEq, Eq, Structural)]
pub enum OpCode {
    Greeting,
    Spawn,
    Despawn,
    WorldUpdate,
    Ping,
}

/// Snapshot of one actor as clients see it.
#[derive(Clone, Copy, Debug, PartialEq, Eq, Structural)]
pub struct ActorState {
    pub id: Id,
    pub pos: Pos,
    pub vel: Vel,
    pub delay: Option<Delay>,
}

/// The data an outbound message carries, one variant per [`OpCode`].
#[derive(Clone, Debug, PartialEq, Eq)]
pub enum Payload {
    Greeting { own_id: Id, actors: Vec<Actor> },
    Spawn { actor: Actor },
    Despawn { id: Id },
    WorldUpdate { last_input: u32, actors: Vec<ActorState> },
    Ping { ping_id: SeqId },
}

/// An outbound message to one client.
#[derive(Clone, Debug, PartialEq, Eq)]
pub struct Message {
    pub opcode: OpCode,
    pub payload: Payload,
}

impl Message {
    /// The full roster sent to a player right after it connected.
    pub fn new_greeting(own_id: Id, actors: Vec<Actor>) -> (r: Self)
        ensures
            r.opcode == OpCode::Greeting,
            r.payload == (Payload::Greeting { own_id, actors }),
    {
        Message { opcode: OpCode::Greeting, payload: Payload::Greeting { own_id, actors } }
    }

    /// Announcement of a newly spawned actor.
    pub fn new_spawn(new_actor: &Actor) -> (r: Self)
        ensures
            r.opcode == OpCode::Spawn,
            r.payload == (Payload::Spawn { actor: *new_actor }),
    {
        Message { opcode: OpCode::Spawn, payload: Payload::Spawn { actor: *new_actor } }
    }

    /// Announcement of a despawned actor.
    pub fn new_despawn(id: Id) -> (r: Self)
        ensures
            r.opcode == OpCode::Despawn,
            r.payload == (Payload::Despawn { id }),
    {
        Message { opcode: OpCode::Despawn, payload: Payload::Despawn { id } }
    }

    /// A latency probe carrying its sequence id.
    pub fn new_ping(ping_id: SeqId) -> (r: Self)
        ensures
            r.opcode == OpCode::Ping,
            r.payload == (Payload::Ping { ping_id }),
    {
        Message { opcode: OpCode::Ping, payload: Payload::Ping { ping_id } }
    }
}

/// What a message carries, with the vectors inside abstracted to their
/// contents.  Contracts about emitted traffic speak in these terms, since
/// specification code cannot build the vectors a [`Message`] holds.
pub enum PayloadView {
    Greeting { own_id: Id, actors: Seq<Actor> },
    Spawn { actor: Actor },
    Despawn { id: Id },
    WorldUpdate { last_input: u32, actors: Seq<ActorState> },
    Ping { ping_id: SeqId },
}

/// The abstract value of one addressed message: its channel, opcode and
/// payload contents.
pub open spec fn spec_sent_view(m: (SendChannel, Message)) -> (SendChannel, OpCode, PayloadView) {
    (
        m.0,
        m.1.opcode,
        match m.1.payload {
            Payload::Greeting { own_id, actors } => PayloadView::Greeting { own_id, actors: actors@ },
            Payload::Spawn { actor } => PayloadView::Spawn { actor },
            Payload::Despawn { id } => PayloadView::Despawn { id },
            Payload::WorldUpdate { last_input, actors } => PayloadView::WorldUpdate {
                last_input,
                actors: actors@,
            },
            Payload::Ping { ping_id } => PayloadView::Ping { ping_id },
        },
    )
}

/// The abstract value of a whole batch of addressed messages, in order.
pub open spec fn spec_sent_views(s: Seq<(SendChannel, Message)>) -> Seq<
    (SendChannel, OpCode, PayloadView),
>
    decreases s.len(),
{
    if s.len() == 0 {
        Seq::empty()
    } else {
        spec_sent_views(s.drop_last()).push(spec_sent_view(s.last()))
    }
}

/// Appending one message appends its view.
pub proof fn lemma_sent_views_push(s: Seq<(SendChannel, Message)>, m: (SendChannel, Message))
    ensures
        spec_sent_views(s.push(m)) == spec_sent_views(s).push(spec_sent_view(m)),
{
    assert(s.push(m).drop_last() =~= s);
    assert(s.push(m).last() == m);
}

/// Concatenating batches concatenates their views.
pub proof fn lemma_sent_views_add(s1: Seq<(SendChannel, Message)>, s2: Seq<(SendChannel, Message)>)
    ensures
        spec_sent_views(s1 + s2) == spec_sent_views(s1) + spec_sent_views(s2),
    decreases s2.len(),
{
    if s2.len() == 0 {
        assert(s1 + s2 =~= s1);
        assert(spec_sent_views(s1) + spec_sent_views(s2) =~= spec_sent_views(s1));
    } else {
        lemma_sent_views_add(s1, s2.drop_last());
        assert((s1 + s2).drop_last() =~= s1 + s2.drop_last());
        assert((s1 + s2).last() == s2.last());
        assert(spec_sent_views(s1) + spec_sent_views(s2) =~= (spec_sent_views(s1)
            + spec_sent_views(s2.drop_last())).push(spec_sent_view(s2.last())));
    }
}

/// Which client key a key-state event speaks of.
#[derive(Clone, Copy, Debug, PartialEq, Eq, Structural)]
pub enum Key {
    ArrowUp,
    ArrowDown,
}

/// An inbound key-state event: sequence number, the key, and whether it
/// went down or up.
#[derive(Clone, Copy, Debug, PartialEq, Eq, Structural)]
pub struct KeyState {
    pub id: u32,
    pub key: Key,
    pub pressed: bool,
}

} // verus!
