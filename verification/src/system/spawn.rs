//! Materializing entities tagged for spawn: players get a side of the
//! arena and friction, the ball gets the center and a serve velocity, and
//! both get a body in the collision world.

use vstd::prelude::*;
use vstd::pervasive::VecAdditionalExecFns;
use crate::collision::{placeable, Bounds as CollisionBounds, World};
use crate::model::comp::{Acc, ActorKind, Friction, Pos, Vel};
use crate::model::game::Id;
use crate::registry::Registry;

verus! {

/// The body a player entity spawns with, centered on its side of the
/// arena: left edge for even slots, right edge for odd ones.
pub open spec fn spec_player_bounds(e: int) -> CollisionBounds {
    CollisionBounds {
        x: if e % 2 == 0 {
            20
        } else {
            980
        },
        y: 500,
        width: 10,
        height: 50,
    }
}

/// The body the ball spawns with, at the arena center.
pub open spec fn spec_ball_bounds() -> CollisionBounds {
    CollisionBounds { x: 500, y: 500, width: 10, height: 10 }
}

/// The serve velocity of a freshly spawned ball.
pub open spec fn spec_ball_vel() -> Vel {
    Vel { x: 10, y: 15 }
}

/// Whether the spawn system materializes this entity.
pub open spec fn spec_spawns(to_spawn: bool, a: Option<crate::model::comp::Actor>) -> bool {
    to_spawn && a is Some
}

/// The spawn system.
pub struct Spawn;

impl Spawn {
    /// Materialize every entity tagged for spawn, dispatching on its
    /// actor kind, and register its body in the collision world.  The
    /// spawn tag itself is consumed later, when the roster messages go
    /// out.
    #[verifier::rlimit(100)]
    pub fn run(reg: &mut Registry, world: &mut World)
        requires
            old(reg).wf(),
            old(world).wf(),
            placeable(spec_ball_bounds(), old(world).spec_width(), old(world).spec_height()),
            forall|e: int|
                0 <= e < old(reg).n() ==> placeable(
                    spec_player_bounds(e),
                    old(world).spec_width(),
                    old(world).spec_height(),
                ),
            forall|e: int|
                0 <= e < old(reg).n() && spec_spawns(
                    old(reg).to_spawn@[e],
                    #[trigger] old(reg).actor@[e],
                ) ==> !old(world)@.contains_key(old(reg).actor@[e]->0.id),
            forall|e1: int, e2: int|
                0 <= e1 < e2 < old(reg).n() && spec_spawns(
                    old(reg).to_spawn@[e1],
                    #[trigger] old(reg).actor@[e1],
                ) && spec_spawns(old(reg).to_spawn@[e2], #[trigger] old(reg).actor@[e2]) ==> old(reg).actor@[e1]->0.id != old(reg).actor@[e2]->0.id,
        ensures
            final(reg).wf(),
            final(reg).n() == old(reg).n(),
            final(reg).alive@ == old(reg).alive@,
            final(reg).actor@ == old(reg).actor@,
            final(reg).player@ == old(reg).player@,
            final(reg).to_spawn@ == old(reg).to_spawn@,
            final(reg).to_despawn@ == old(reg).to_despawn@,
            final(reg).ping@ == old(reg).ping@,
            final(reg).pong@ == old(reg).pong@,
            final(world).wf(),
            final(world).spec_width() == old(world).spec_width(),
            final(world).spec_height() == old(world).spec_height(),
            forall|e: int|
                0 <= e < old(reg).n() && !spec_spawns(
                    old(reg).to_spawn@[e],
                    #[trigger] old(reg).actor@[e],
                ) ==> {
                    &&& final(reg).pos@[e] == old(reg).pos@[e]
                    &&& final(reg).vel@[e] == old(reg).vel@[e]
                    &&& final(reg).acc@[e] == old(reg).acc@[e]
                    &&& final(reg).friction@[e] == old(reg).friction@[e]
                    &&& final(reg).bounciness@[e] == old(reg).bounciness@[e]
                },
            forall|e: int|
                0 <= e < old(reg).n() && spec_spawns(
                    old(reg).to_spawn@[e],
                    #[trigger] old(reg).actor@[e],
                ) && old(reg).actor@[e]->0.kind == ActorKind::Player ==> {
                    &&& final(reg).acc@[e] == Some(Acc { x: 0, y: 0 })
                    &&& final(reg).vel@[e] == Some(Vel { x: 0, y: 0 })
                    &&& final(reg).pos@[e] == Some(
                        Pos { x: spec_player_bounds(e).x, y: spec_player_bounds(e).y },
                    )
                    &&& final(reg).friction@[e] == Some(Friction(2))
                    &&& final(reg).bounciness@[e] == old(reg).bounciness@[e]
                    &&& final(world)@.contains_key(old(reg).actor@[e]->0.id)
                    &&& final(world)@[old(reg).actor@[e]->0.id] == spec_player_bounds(e)
                },
            forall|e: int|
                0 <= e < old(reg).n() && spec_spawns(
                    old(reg).to_spawn@[e],
                    #[trigger] old(reg).actor@[e],
                ) && old(reg).actor@[e]->0.kind == ActorKind::Ball ==> {
                    &&& final(reg).vel@[e] == Some(spec_ball_vel())
                    &&& final(reg).pos@[e] == Some(
                        Pos { x: spec_ball_bounds().x, y: spec_ball_bounds().y },
                    )
                    &&& final(reg).bounciness@[e] == true
                    &&& final(reg).acc@[e] == old(reg).acc@[e]
                    &&& final(reg).friction@[e] == old(reg).friction@[e]
                    &&& final(world)@.contains_key(old(reg).actor@[e]->0.id)
                    &&& final(world)@[old(reg).actor@[e]->0.id] == spec_ball_bounds()
                },
            forall|id: Id|
                old(world)@.contains_key(id) ==> final(world)@.contains_key(id),
            forall|id: Id|
                old(world)@.contains_key(id) ==> (#[trigger] final(world)@[id]) == old(world)@[id],
            forall|id: Id|
                #![trigger final(world)@.contains_key(id)]
                final(world)@.contains_key(id) && !old(world)@.contains_key(id) ==> exists|e: int|
                    0 <= e < old(reg).n() && spec_spawns(
                        old(reg).to_spawn@[e],
                        old(reg).actor@[e],
                    ) && old(reg).actor@[e]->0.id == id,
    {
        let n = reg.alive.len();
        let mut e: usize = 0;
        while e < n
            invariant
                reg.wf(),
                world.wf(),
                n == old(reg).n(),
                reg.n() == n,
                0 <= e <= n,
                world.spec_width() == old(world).spec_width(),
                world.spec_height() == old(world).spec_height(),
                placeable(spec_ball_bounds(), old(world).spec_width(), old(world).spec_height()),
                forall|w: int|
                    0 <= w < n ==> placeable(
                        spec_player_bounds(w),
                        old(world).spec_width(),
                        old(world).spec_height(),
                    ),
                forall|w: int|
                    0 <= w < n && spec_spawns(old(reg).to_spawn@[w], #[trigger] old(reg).actor@[w])
                        ==> !old(world)@.contains_key(old(reg).actor@[w]->0.id),
                forall|e1: int, e2: int|
                    0 <= e1 < e2 < n && spec_spawns(
                        old(reg).to_spawn@[e1],
                        #[trigger] old(reg).actor@[e1],
                    ) && spec_spawns(old(reg).to_spawn@[e2], #[trigger] old(reg).actor@[e2])
                        ==> old(reg).actor@[e1]->0.id != old(reg).actor@[e2]->0.id,
                reg.alive@ == old(reg).alive@,
                reg.actor@ == old(reg).actor@,
                reg.player@ == old(reg).player@,
                reg.to_spawn@ == old(reg).to_spawn@,
                reg.to_despawn@ == old(reg).to_despawn@,
                reg.ping@ == old(reg).ping@,
                reg.pong@ == old(reg).pong@,
                forall|w: int|
                    0 <= w < n && !spec_spawns(
                        old(reg).to_spawn@[w],
                        #[trigger] old(reg).actor@[w],
                    ) ==> {
                        &&& reg.pos@[w] == old(reg).pos@[w]
                        &&& reg.vel@[w] == old(reg).vel@[w]
                        &&& reg.acc@[w] == old(reg).acc@[w]
                        &&& reg.friction@[w] == old(reg).friction@[w]
                        &&& reg.bounciness@[w] == old(reg).bounciness@[w]
                    },
                forall|w: int|
                    e <= w < n ==> {
                        &&& reg.pos@[w] == old(reg).pos@[w]
                        &&& reg.vel@[w] == old(reg).vel@[w]
                        &&& reg.acc@[w] == old(reg).acc@[w]
                        &&& reg.friction@[w] == old(reg).friction@[w]
                        &&& reg.bounciness@[w] == old(reg).bounciness@[w]
                    },
                forall|w: int|
                    0 <= w < e && spec_spawns(old(reg).to_spawn@[w], #[trigger] old(reg).actor@[w])
                        && old(reg).actor@[w]->0.kind == ActorKind::Player ==> {
                        &&& reg.acc@[w] == Some(Acc { x: 0, y: 0 })
                        &&& reg.vel@[w] == Some(Vel { x: 0, y: 0 })
                        &&& reg.pos@[w] == Some(
                            Pos { x: spec_player_bounds(w).x, y: spec_player_bounds(w).y },
                        )
                        &&& reg.friction@[w] == Some(Friction(2))
                        &&& reg.bounciness@[w] == old(reg).bounciness@[w]
                        &&& world@.contains_key(old(reg).actor@[w]->0.id)
                        &&& world@[old(reg).actor@[w]->0.id] == spec_player_bounds(w)
                    },
                forall|w: int|
                    0 <= w < e && spec_spawns(old(reg).to_spawn@[w], #[trigger] old(reg).actor@[w])
                        && old(reg).actor@[w]->0.kind == ActorKind::Ball ==> {
                        &&& reg.vel@[w] == Some(spec_ball_vel())
                        &&& reg.pos@[w] == Some(
                            Pos { x: spec_ball_bounds().x, y: spec_ball_bounds().y },
                        )
                        &&& reg.bounciness@[w] == true
                        &&& reg.acc@[w] == old(reg).acc@[w]
                        &&& reg.friction@[w] == old(reg).friction@[w]
                        &&& world@.contains_key(old(reg).actor@[w]->0.id)
                        &&& world@[old(reg).actor@[w]->0.id] == spec_ball_bounds()
                    },
                forall|id: Id|
                    old(world)@.contains_key(id) ==> world@.contains_key(id),
                forall|id: Id|
                    old(world)@.contains_key(id) ==> (#[trigger] world@[id]) == old(world)@[id],
                forall|id: Id|
                    world@.contains_key(id) && !old(world)@.contains_key(id) ==> exists|w: int|
                        0 <= w < e && spec_spawns(
                            old(reg).to_spawn@[w],
                            #[trigger] old(reg).actor@[w],
                        ) && old(reg).actor@[w]->0.id == id,
            decreases n - e,
        {
            if reg.to_spawn[e] && reg.actor[e].is_some() {
                let actor = reg.actor[e].unwrap();
                proof {
                    assert(spec_spawns(old(reg).to_spawn@[e as int], old(reg).actor@[e as int]));
                    assert(!old(world)@.contains_key(actor.id));
                    assert(!world@.contains_key(actor.id)) by {
                        if world@.contains_key(actor.id) {
                            let w = choose|w: int|
                                0 <= w < e && spec_spawns(
                                    old(reg).to_spawn@[w],
                                    old(reg).actor@[w],
                                ) && old(reg).actor@[w]->0.id == actor.id;
                            assert(old(reg).actor@[w]->0.id != old(reg).actor@[e as int]->0.id);
                        }
                    }
                }
                match actor.kind {
                    ActorKind::Player => {
                        let x: i32 = if e % 2 == 0 {
                            20
                        } else {
                            980
                        };
                        reg.acc.set(e, Some(Acc { x: 0, y: 0 }));
                        reg.vel.set(e, Some(Vel { x: 0, y: 0 }));
                        reg.pos.set(e, Some(Pos { x, y: 500 }));
                        reg.friction.set(e, Some(Friction(2)));
                        let bounds = CollisionBounds { x, y: 500, width: 10, height: 50 };
                        let ghost w_pre: Map<Id, CollisionBounds> = world@;
                        proof {
                            assert(placeable(
                                spec_player_bounds(e as int),
                                old(world).spec_width(),
                                old(world).spec_height(),
                            ));
                            assert(bounds == spec_player_bounds(e as int));
                        }
                        world.add(actor.id, bounds);
                        proof {
                            assert forall|id: Id| old(world)@.contains_key(id) implies
                            world@.contains_key(id) by {
                                assert(w_pre.contains_key(id) == w_pre.contains_key(id));
                                assert(w_pre.contains_key(id));
                            }
                            assert forall|id: Id| old(world)@.contains_key(id) implies (
                            #[trigger] world@[id]) == old(world)@[id] by {
                                assert(w_pre.contains_key(id) == w_pre.contains_key(id));
                                assert(w_pre.contains_key(id));
                                assert(w_pre[id] == old(world)@[id]);
                                assert(id != actor.id);
                            }
                        }
                    },
                    ActorKind::Ball => {
                        reg.vel.set(e, Some(Vel { x: 10, y: 15 }));
                        reg.pos.set(e, Some(Pos { x: 500, y: 500 }));
                        reg.bounciness.set(e, true);
                        let bounds = CollisionBounds { x: 500, y: 500, width: 10, height: 10 };
                        let ghost w_pre: Map<Id, CollisionBounds> = world@;
                        proof {
                            assert(bounds == spec_ball_bounds());
                        }
                        world.add(actor.id, bounds);
                        proof {
                            assert forall|id: Id| old(world)@.contains_key(id) implies
                            world@.contains_key(id) by {
                                assert(w_pre.contains_key(id) == w_pre.contains_key(id));
                                assert(w_pre.contains_key(id));
                            }
                            assert forall|id: Id| old(world)@.contains_key(id) implies (
                            #[trigger] world@[id]) == old(world)@[id] by {
                                assert(w_pre.contains_key(id) == w_pre.contains_key(id));
                                assert(w_pre.contains_key(id));
                                assert(w_pre[id] == old(world)@[id]);
                                assert(id != actor.id);
                            }
                        }
                    },
                }
            }
            e = e + 1;
        }
    }
}

} // verus!
