//! Building the per-tick outbound traffic: greetings and spawn
//! announcements for fresh actors, despawn announcements, and the
//! steady-state world update for every connected player.
//!
//! Each builder's contract fixes the emitted batch exactly, as a sequence
//! of [`spec_sent_view`] values: recipient channel, opcode and payload
//! contents, in slot order.

use vstd::prelude::*;
use vstd::pervasive::VecAdditionalExecFns;
use crate::model::client::{
    lemma_sent_views_add, lemma_sent_views_push, spec_sent_view, spec_sent_views, ActorState,
    Message, OpCode, Payload, PayloadView,
};
use crate::model::comp::{Actor, SendChannel};
use crate::registry::Registry;

verus! {

/// The actor roster: every entity that currently embodies an actor, in
/// slot order.
pub open spec fn spec_roster(reg: Registry, upto: int) -> Seq<Actor>
    decreases upto,
{
    if upto <= 0 {
        Seq::empty()
    } else {
        let pre = spec_roster(reg, upto - 1);
        if reg.actor@[upto - 1] is Some {
            pre.push(reg.actor@[upto - 1]->0)
        } else {
            pre
        }
    }
}

/// The snapshot sent in world updates: position, velocity and (for
/// players) the latency estimate of every fully materialized actor, in
/// slot order.
pub open spec fn spec_snapshot(reg: Registry, upto: int) -> Seq<ActorState>
    decreases upto,
{
    if upto <= 0 {
        Seq::empty()
    } else {
        let pre = spec_snapshot(reg, upto - 1);
        let e = upto - 1;
        if reg.actor@[e] is Some && reg.pos@[e] is Some && reg.vel@[e] is Some {
            pre.push(
                ActorState {
                    id: reg.actor@[e]->0.id,
                    pos: reg.pos@[e]->0,
                    vel: reg.vel@[e]->0,
                    delay: if reg.player@[e] is Some {
                        Some(reg.player@[e]->0.delay)
                    } else {
                        None
                    },
                },
            )
        } else {
            pre
        }
    }
}

/// The announcements one freshly spawned actor at slot `e` causes, over
/// the player slots below `upto`: a greeting carrying the full roster to
/// the new player itself, a spawn announcement to every other player.
pub open spec fn spec_connect_to_players(
    reg: Registry,
    new_actor: Actor,
    e: int,
    upto: int,
) -> Seq<(SendChannel, OpCode, PayloadView)>
    decreases upto,
{
    if upto <= 0 {
        Seq::empty()
    } else {
        let pre = spec_connect_to_players(reg, new_actor, e, upto - 1);
        let w = upto - 1;
        if reg.player@[w] is Some {
            if w == e {
                pre.push(
                    (
                        reg.player@[w]->0.send_channel,
                        OpCode::Greeting,
                        PayloadView::Greeting {
                            own_id: new_actor.id,
                            actors: spec_roster(reg, reg.n()),
                        },
                    ),
                )
            } else {
                pre.push(
                    (
                        reg.player@[w]->0.send_channel,
                        OpCode::Spawn,
                        PayloadView::Spawn { actor: new_actor },
                    ),
                )
            }
        } else {
            pre
        }
    }
}

/// All connection announcements: the blocks of [`spec_connect_to_players`]
/// for every spawn-tagged actor entity, in slot order.
pub open spec fn spec_connect_views(reg: Registry, upto: int) -> Seq<
    (SendChannel, OpCode, PayloadView),
>
    decreases upto,
{
    if upto <= 0 {
        Seq::empty()
    } else {
        let e = upto - 1;
        spec_connect_views(reg, upto - 1) + (if reg.to_spawn@[e] && reg.actor@[e] is Some {
            spec_connect_to_players(reg, reg.actor@[e]->0, e, reg.n())
        } else {
            Seq::empty()
        })
    }
}

/// The despawn announcement of one actor id, to every connected player in
/// slot order.
pub open spec fn spec_despawn_to_players(reg: Registry, id: crate::model::game::Id, upto: int) -> Seq<
    (SendChannel, OpCode, PayloadView),
>
    decreases upto,
{
    if upto <= 0 {
        Seq::empty()
    } else {
        let pre = spec_despawn_to_players(reg, id, upto - 1);
        let w = upto - 1;
        if reg.player@[w] is Some {
            pre.push((reg.player@[w]->0.send_channel, OpCode::Despawn, PayloadView::Despawn { id }))
        } else {
            pre
        }
    }
}

/// All despawn announcements: one block per despawn-tagged actor entity,
/// in slot order.
pub open spec fn spec_despawn_views(reg: Registry, upto: int) -> Seq<
    (SendChannel, OpCode, PayloadView),
>
    decreases upto,
{
    if upto <= 0 {
        Seq::empty()
    } else {
        let e = upto - 1;
        spec_despawn_views(reg, upto - 1) + (if reg.to_despawn@[e] && reg.actor@[e] is Some {
            spec_despawn_to_players(reg, reg.actor@[e]->0.id, reg.n())
        } else {
            Seq::empty()
        })
    }
}

/// The steady-state updates: one world-update message per connected
/// player, in slot order, carrying that player's last applied input and
/// the full snapshot.
pub open spec fn spec_update_views(reg: Registry, upto: int) -> Seq<
    (SendChannel, OpCode, PayloadView),
>
    decreases upto,
{
    if upto <= 0 {
        Seq::empty()
    } else {
        let pre = spec_update_views(reg, upto - 1);
        let w = upto - 1;
        if reg.player@[w] is Some {
            pre.push(
                (
                    reg.player@[w]->0.send_channel,
                    OpCode::WorldUpdate,
                    PayloadView::WorldUpdate {
                        last_input: reg.player@[w]->0.last_input,
                        actors: spec_snapshot(reg, reg.n()),
                    },
                ),
            )
        } else {
            pre
        }
    }
}

/// Collect the current actor roster.
pub fn roster(reg: &Registry) -> (r: Vec<Actor>)
    requires
        reg.wf(),
    ensures
        r@ == spec_roster(*reg, reg.n()),
{
    let n = reg.alive.len();
    let mut r: Vec<Actor> = Vec::new();
    let mut e: usize = 0;
    while e < n
        invariant
            reg.wf(),
            n == reg.n(),
            0 <= e <= n,
            r@ == spec_roster(*reg, e as int),
        decreases n - e,
    {
        match reg.actor[e] {
            Some(a) => {
                r.push(a);
            },
            None => {},
        }
        e = e + 1;
    }
    r
}

/// Collect the current world snapshot.
pub fn snapshot(reg: &Registry) -> (r: Vec<ActorState>)
    requires
        reg.wf(),
    ensures
        r@ == spec_snapshot(*reg, reg.n()),
{
    let n = reg.alive.len();
    let mut r: Vec<ActorState> = Vec::new();
    let mut e: usize = 0;
    while e < n
        invariant
            reg.wf(),
            n == reg.n(),
            0 <= e <= n,
            r@ == spec_snapshot(*reg, e as int),
        decreases n - e,
    {
        if reg.actor[e].is_some() && reg.pos[e].is_some() && reg.vel[e].is_some() {
            let a = reg.actor[e].unwrap();
            let delay = match reg.player[e] {
                Some(ref p) => Some(p.delay),
                None => None,
            };
            r.push(
                ActorState { id: a.id, pos: reg.pos[e].unwrap(), vel: reg.vel[e].unwrap(), delay },
            );
        }
        e = e + 1;
    }
    r
}

/// Greet every freshly spawned actor's own player with the roster,
/// announce the actor to every other player, and consume the spawn tags.
/// The emitted batch is exactly [`spec_connect_views`] of the entry state.
#[verifier::rlimit(100)]
pub fn handle_new_connections(reg: &mut Registry) -> (out: Vec<(SendChannel, Message)>)
    requires
        old(reg).wf(),
    ensures
        final(reg).wf(),
        final(reg).n() == old(reg).n(),
        final(reg).alive@ == old(reg).alive@,
        final(reg).pos@ == old(reg).pos@,
        final(reg).vel@ == old(reg).vel@,
        final(reg).acc@ == old(reg).acc@,
        final(reg).friction@ == old(reg).friction@,
        final(reg).bounciness@ == old(reg).bounciness@,
        final(reg).actor@ == old(reg).actor@,
        final(reg).player@ == old(reg).player@,
        final(reg).to_despawn@ == old(reg).to_despawn@,
        final(reg).ping@ == old(reg).ping@,
        final(reg).pong@ == old(reg).pong@,
        forall|e: int|
            0 <= e < old(reg).n() ==> final(reg).to_spawn@[e] == (old(reg).to_spawn@[e] && !((
            #[trigger] old(reg).actor@[e]) is Some)),
        spec_sent_views(out@) == spec_connect_views(*old(reg), old(reg).n()),
    {
    let the_roster = roster(reg);
    let n = reg.alive.len();
    let mut out: Vec<(SendChannel, Message)> = Vec::new();
    let mut e: usize = 0;
    while e < n
        invariant
            reg.wf(),
            n == reg.n(),
            n == old(reg).n(),
            0 <= e <= n,
            the_roster@ == spec_roster(*old(reg), old(reg).n()),
            reg.alive@ == old(reg).alive@,
            reg.pos@ == old(reg).pos@,
            reg.vel@ == old(reg).vel@,
            reg.acc@ == old(reg).acc@,
            reg.friction@ == old(reg).friction@,
            reg.bounciness@ == old(reg).bounciness@,
            reg.actor@ == old(reg).actor@,
            reg.player@ == old(reg).player@,
            reg.to_despawn@ == old(reg).to_despawn@,
            reg.ping@ == old(reg).ping@,
            reg.pong@ == old(reg).pong@,
            forall|w: int|
                0 <= w < e ==> reg.to_spawn@[w] == (old(reg).to_spawn@[w] && !((#[trigger] old(
                    reg,
                ).actor@[w]) is Some)),
            forall|w: int| e <= w < n ==> reg.to_spawn@[w] == old(reg).to_spawn@[w],
            spec_sent_views(out@) == spec_connect_views(*old(reg), e as int),
        decreases n - e,
    {
        let ghost e0: int = e as int;
        let actor_opt = reg.actor[e];
        let tagged = reg.to_spawn[e] && actor_opt.is_some();
        if tagged {
            let new_actor = actor_opt.unwrap();
            reg.to_spawn.set(e, false);
            proof {
                assert(new_actor == old(reg).actor@[e0]->0);
            }
            // greet the new player, announce it to everyone else
            let mut w: usize = 0;
            while w < n
                invariant
                    reg.wf(),
                    n == reg.n(),
                    n == old(reg).n(),
                    0 <= w <= n,
                    0 <= e0 < n,
                    e0 == e as int,
                    the_roster@ == spec_roster(*old(reg), old(reg).n()),
                    reg.player@ == old(reg).player@,
                    new_actor == old(reg).actor@[e0]->0,
                    spec_sent_views(out@) == spec_connect_views(*old(reg), e0)
                        + spec_connect_to_players(*old(reg), new_actor, e0, w as int),
                decreases n - w,
            {
                let ghost w0: int = w as int;
                let ghost out_pre: Seq<(SendChannel, Message)> = out@;
                match reg.player[w] {
                    Some(ref p) => {
                        proof {
                            assert(old(reg).player@[w0] is Some);
                            assert(*p == old(reg).player@[w0]->0);
                        }
                        if w == e {
                            let mut actors: Vec<Actor> = Vec::new();
                            let mut k: usize = 0;
                            while k < the_roster.len()
                                invariant
                                    0 <= k <= the_roster@.len(),
                                    actors@ == the_roster@.subrange(0, k as int),
                                decreases the_roster@.len() - k,
                            {
                                actors.push(the_roster[k]);
                                proof {
                                    assert(actors@ =~= the_roster@.subrange(0, k as int + 1));
                                }
                                k = k + 1;
                            }
                            proof {
                                assert(actors@ =~= the_roster@);
                            }
                            let msg = (p.send_channel, Message::new_greeting(new_actor.id, actors));
                            out.push(msg);
                            proof {
                                lemma_sent_views_push(out_pre, msg);
                                assert(spec_sent_view(msg) == (
                                    old(reg).player@[w0]->0.send_channel,
                                    OpCode::Greeting,
                                    PayloadView::Greeting {
                                        own_id: new_actor.id,
                                        actors: spec_roster(*old(reg), old(reg).n()),
                                    },
                                ));
                                assert((spec_connect_views(*old(reg), e0) + spec_connect_to_players(
                                    *old(reg),
                                    new_actor,
                                    e0,
                                    w0,
                                )).push(spec_sent_view(msg)) =~= spec_connect_views(*old(reg), e0)
                                    + spec_connect_to_players(*old(reg), new_actor, e0, w0).push(
                                    spec_sent_view(msg),
                                ));
                                assert(spec_connect_to_players(*old(reg), new_actor, e0, w0 + 1)
                                    == spec_connect_to_players(*old(reg), new_actor, e0, w0).push(
                                    spec_sent_view(msg),
                                ));
                                assert(spec_sent_views(out@) == spec_connect_views(*old(reg), e0)
                                    + spec_connect_to_players(*old(reg), new_actor, e0, w0 + 1));
                            }
                        } else {
                            let msg = (p.send_channel, Message::new_spawn(&new_actor));
                            out.push(msg);
                            proof {
                                lemma_sent_views_push(out_pre, msg);
                                assert(spec_sent_view(msg) == (
                                    old(reg).player@[w0]->0.send_channel,
                                    OpCode::Spawn,
                                    PayloadView::Spawn { actor: new_actor },
                                ));
                                assert((spec_connect_views(*old(reg), e0) + spec_connect_to_players(
                                    *old(reg),
                                    new_actor,
                                    e0,
                                    w0,
                                )).push(spec_sent_view(msg)) =~= spec_connect_views(*old(reg), e0)
                                    + spec_connect_to_players(*old(reg), new_actor, e0, w0).push(
                                    spec_sent_view(msg),
                                ));
                                assert(spec_connect_to_players(*old(reg), new_actor, e0, w0 + 1)
                                    == spec_connect_to_players(*old(reg), new_actor, e0, w0).push(
                                    spec_sent_view(msg),
                                ));
                                assert(spec_sent_views(out@) == spec_connect_views(*old(reg), e0)
                                    + spec_connect_to_players(*old(reg), new_actor, e0, w0 + 1));
                            }
                        }
                    },
                    None => {
                        proof {
                            assert(old(reg).player@[w0] is None);
                            assert(spec_connect_to_players(*old(reg), new_actor, e0, w0 + 1)
                                == spec_connect_to_players(*old(reg), new_actor, e0, w0));
                            assert(spec_sent_views(out@) == spec_connect_views(*old(reg), e0)
                                + spec_connect_to_players(*old(reg), new_actor, e0, w0 + 1));
                        }
                    },
                }
                w = w + 1;
            }
        }
        e = e + 1;
        proof {
            if tagged {
                assert(spec_connect_views(*old(reg), e as int) == spec_connect_views(
                    *old(reg),
                    e0,
                ) + spec_connect_to_players(*old(reg), actor_opt->0, e0, n as int));
            } else {
                assert(spec_connect_views(*old(reg), e as int) =~= spec_connect_views(
                    *old(reg),
                    e0,
                ) + Seq::<(SendChannel, OpCode, PayloadView)>::empty());
            }
        }
    }
    out
}

/// Announce every despawn-tagged actor to every connected player.  The
/// emitted batch is exactly [`spec_despawn_views`].
#[verifier::rlimit(100)]
pub fn handle_disconnects(reg: &Registry) -> (out: Vec<(SendChannel, Message)>)
    requires
        reg.wf(),
    ensures
        spec_sent_views(out@) == spec_despawn_views(*reg, reg.n()),
{
    let n = reg.alive.len();
    let mut out: Vec<(SendChannel, Message)> = Vec::new();
    let mut e: usize = 0;
    while e < n
        invariant
            reg.wf(),
            n == reg.n(),
            0 <= e <= n,
            spec_sent_views(out@) == spec_despawn_views(*reg, e as int),
        decreases n - e,
    {
        let ghost e0: int = e as int;
        let actor_opt = reg.actor[e];
        let tagged = reg.to_despawn[e] && actor_opt.is_some();
        if tagged {
            let actor = actor_opt.unwrap();
            let mut w: usize = 0;
            while w < n
                invariant
                    reg.wf(),
                    n == reg.n(),
                    0 <= w <= n,
                    0 <= e0 < n,
                    actor == reg.actor@[e0]->0,
                    spec_sent_views(out@) == spec_despawn_views(*reg, e0)
                        + spec_despawn_to_players(*reg, actor.id, w as int),
                decreases n - w,
            {
                let ghost out_pre: Seq<(SendChannel, Message)> = out@;
                match reg.player[w] {
                    Some(ref p) => {
                        let msg = (p.send_channel, Message::new_despawn(actor.id));
                        out.push(msg);
                        proof {
                            lemma_sent_views_push(out_pre, msg);
                        }
                    },
                    None => {},
                }
                w = w + 1;
            }
        }
        e = e + 1;
        proof {
            if tagged {
                assert(spec_despawn_views(*reg, e as int) == spec_despawn_views(*reg, e0)
                    + spec_despawn_to_players(*reg, actor_opt->0.id, n as int));
            } else {
                assert(spec_despawn_views(*reg, e as int) =~= spec_despawn_views(*reg, e0)
                    + Seq::<(SendChannel, OpCode, PayloadView)>::empty());
            }
        }
    }
    out
}

/// Send the steady-state snapshot to every connected player, stamped with
/// the player's own last applied input.  The emitted batch is exactly
/// [`spec_update_views`].
#[verifier::rlimit(100)]
pub fn send_world_updates(reg: &Registry) -> (out: Vec<(SendChannel, Message)>)
    requires
        reg.wf(),
    ensures
        spec_sent_views(out@) == spec_update_views(*reg, reg.n()),
{
    let n = reg.alive.len();
    let shot = snapshot(reg);
    let mut out: Vec<(SendChannel, Message)> = Vec::new();
    let mut e: usize = 0;
    while e < n
        invariant
            reg.wf(),
            n == reg.n(),
            0 <= e <= n,
            shot@ == spec_snapshot(*reg, reg.n()),
            spec_sent_views(out@) == spec_update_views(*reg, e as int),
        decreases n - e,
    {
        let ghost out_pre: Seq<(SendChannel, Message)> = out@;
        match reg.player[e] {
            Some(ref p) => {
                let mut actors: Vec<ActorState> = Vec::new();
                let mut k: usize = 0;
                while k < shot.len()
                    invariant
                        0 <= k <= shot@.len(),
                        actors@ == shot@.subrange(0, k as int),
                    decreases shot@.len() - k,
                {
                    actors.push(shot[k]);
                    proof {
                        assert(actors@ =~= shot@.subrange(0, k as int + 1));
                    }
                    k = k + 1;
                }
                proof {
                    assert(actors@ =~= shot@);
                }
                let msg = (
                    p.send_channel,
                    Message {
                        opcode: OpCode::WorldUpdate,
                        payload: Payload::WorldUpdate { last_input: p.last_input, actors },
                    },
                );
                out.push(msg);
                proof {
                    lemma_sent_views_push(out_pre, msg);
                }
            },
            None => {},
        }
        e = e + 1;
    }
    out
}

/// Two registries agreeing on players, actors, positions and velocities
/// take the same snapshot.
proof fn lemma_snapshot_congruent(r1: Registry, r2: Registry, upto: int)
    requires
        r1.player@ == r2.player@,
        r1.actor@ == r2.actor@,
        r1.pos@ == r2.pos@,
        r1.vel@ == r2.vel@,
        r1.n() == r2.n(),
    ensures
        spec_snapshot(r1, upto) == spec_snapshot(r2, upto),
    decreases upto,
{
    if upto > 0 {
        lemma_snapshot_congruent(r1, r2, upto - 1);
    }
}

/// Two registries agreeing on players, actors, positions and velocities
/// emit the same updates.
proof fn lemma_update_views_congruent(r1: Registry, r2: Registry, upto: int)
    requires
        r1.player@ == r2.player@,
        r1.actor@ == r2.actor@,
        r1.pos@ == r2.pos@,
        r1.vel@ == r2.vel@,
        r1.n() == r2.n(),
    ensures
        spec_update_views(r1, upto) == spec_update_views(r2, upto),
    decreases upto,
{
    lemma_snapshot_congruent(r1, r2, r1.n());
    if upto > 0 {
        lemma_update_views_congruent(r1, r2, upto - 1);
    }
}

/// Two registries agreeing on players, actors and despawn tags emit the
/// same despawn announcements.
proof fn lemma_despawn_views_congruent(r1: Registry, r2: Registry, upto: int)
    requires
        r1.player@ == r2.player@,
        r1.actor@ == r2.actor@,
        r1.to_despawn@ == r2.to_despawn@,
        r1.n() == r2.n(),
    ensures
        spec_despawn_views(r1, upto) == spec_despawn_views(r2, upto),
    decreases upto,
{
    if upto > 0 {
        lemma_despawn_views_congruent(r1, r2, upto - 1);
        if r1.to_despawn@[upto - 1] && r1.actor@[upto - 1] is Some {
            lemma_despawn_to_players_congruent(r1, r2, r1.actor@[upto - 1]->0.id, r1.n());
        }
    }
}

proof fn lemma_despawn_to_players_congruent(
    r1: Registry,
    r2: Registry,
    id: crate::model::game::Id,
    upto: int,
)
    requires
        r1.player@ == r2.player@,
    ensures
        spec_despawn_to_players(r1, id, upto) == spec_despawn_to_players(r2, id, upto),
    decreases upto,
{
    if upto > 0 {
        lemma_despawn_to_players_congruent(r1, r2, id, upto - 1);
    }
}

/// The sending system.
pub struct Sending;

impl Sending {
    /// Build one frame's outbound traffic: greetings and spawn
    /// announcements (consuming the spawn tags), despawn announcements,
    /// then a world update per player — exactly the concatenation of the
    /// three batch specifications over the entry state.
    pub fn run(reg: &mut Registry) -> (out: Vec<(SendChannel, Message)>)
        requires
            old(reg).wf(),
        ensures
            final(reg).wf(),
            final(reg).n() == old(reg).n(),
            final(reg).alive@ == old(reg).alive@,
            final(reg).pos@ == old(reg).pos@,
            final(reg).vel@ == old(reg).vel@,
            final(reg).acc@ == old(reg).acc@,
            final(reg).friction@ == old(reg).friction@,
            final(reg).bounciness@ == old(reg).bounciness@,
            final(reg).actor@ == old(reg).actor@,
            final(reg).player@ == old(reg).player@,
            final(reg).to_despawn@ == old(reg).to_despawn@,
            final(reg).ping@ == old(reg).ping@,
            final(reg).pong@ == old(reg).pong@,
            forall|e: int|
                0 <= e < old(reg).n() ==> final(reg).to_spawn@[e] == (old(reg).to_spawn@[e] && !((
                #[trigger] old(reg).actor@[e]) is Some)),
            spec_sent_views(out@) == spec_connect_views(*old(reg), old(reg).n())
                + spec_despawn_views(*old(reg), old(reg).n()) + spec_update_views(
                *old(reg),
                old(reg).n(),
            ),
    {
        let mut out = handle_new_connections(reg);
        let ghost out1: Seq<(SendChannel, Message)> = out@;
        let ghost mid: Registry = *reg;
        let mut disconnects = handle_disconnects(reg);
        let ghost out2: Seq<(SendChannel, Message)> = disconnects@;
        out.append(&mut disconnects);
        proof {
            lemma_sent_views_add(out1, out2);
            lemma_despawn_views_congruent(mid, *old(reg), old(reg).n() as int);
        }
        let ghost out12: Seq<(SendChannel, Message)> = out@;
        let mut updates = send_world_updates(reg);
        let ghost out3: Seq<(SendChannel, Message)> = updates@;
        out.append(&mut updates);
        proof {
            lemma_sent_views_add(out12, out3);
            lemma_update_views_congruent(mid, *old(reg), old(reg).n() as int);
        }
        out
    }
}

} // verus!
