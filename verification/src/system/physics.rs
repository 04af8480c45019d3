//! Motion integration: acceleration into velocity, friction decay, and
//! velocity into position, pushing each moved actor's new center into the
//! collision world.

use vstd::prelude::*;
use vstd::pervasive::VecAdditionalExecFns;
use crate::collision::{half, placeable, with_center, World};
use crate::model::comp::{Acc, Actor, Bounds, Friction, Pos, Vel};
use crate::model::game::Id;
use crate::registry::Registry;
use crate::util::spec_clamp;

verus! {

/// Velocity after one integration step: acceleration added, each axis
/// clamped to the configured band.
pub open spec fn spec_integrate_vel(v: Vel, a: Acc, min: Vel, max: Vel) -> Vel {
    Vel {
        x: spec_clamp(v.x + a.x, min.x as int, max.x as int) as i32,
        y: spec_clamp(v.y + a.y, min.y as int, max.y as int) as i32,
    }
}

/// Vertical velocity after one step of friction decay: moved toward zero
/// by the coefficient, clamped at zero so it never crosses it.
pub open spec fn spec_friction_y(vy: int, f: int) -> int {
    if vy > 0 {
        if vy - f < 0 {
            0
        } else {
            vy - f
        }
    } else if vy < 0 {
        if vy + f > 0 {
            0
        } else {
            vy + f
        }
    } else {
        0
    }
}

/// Friction never overshoots: one decay step keeps a positive vertical
/// velocity non-negative and a negative one non-positive, and never speeds
/// the entity up.
pub proof fn lemma_friction_no_overshoot(vy: int, f: int)
    requires
        f >= 0,
    ensures
        vy > 0 ==> 0 <= spec_friction_y(vy, f) <= vy,
        vy < 0 ==> vy <= spec_friction_y(vy, f) <= 0,
        vy == 0 ==> spec_friction_y(vy, f) == 0,
{
}

/// The velocity an entity ends the physics step with, given its optional
/// components: integration when it accelerates, then friction when it
/// carries a coefficient.
pub open spec fn spec_vel_after(
    v0: Option<Vel>,
    a: Option<Acc>,
    f: Option<Friction>,
    min: Vel,
    max: Vel,
) -> Option<Vel> {
    let v1 = if v0 is Some && a is Some {
        Some(spec_integrate_vel(v0->0, a->0, min, max))
    } else {
        v0
    };
    if v1 is Some && f is Some {
        Some(Vel { x: v1->0.x, y: spec_friction_y(v1->0.y as int, (f->0).0 as int) as i32 })
    } else {
        v1
    }
}

/// Whether the physics step moves this entity and re-places it in the
/// collision world.
pub open spec fn spec_moves(
    p: Option<Pos>,
    v: Option<Vel>,
    a: Option<Actor>,
    to_despawn: bool,
) -> bool {
    p is Some && v is Some && a is Some && !to_despawn
}

/// The position an entity ends the physics step with.
pub open spec fn spec_pos_after(p: Pos, v: Vel, min: Pos, max: Pos) -> Pos {
    Pos {
        x: spec_clamp(p.x + v.x, min.x as int, max.x as int) as i32,
        y: spec_clamp(p.y + v.y, min.y as int, max.y as int) as i32,
    }
}

/// The position band keeps every stored body inside the world: any center
/// clamped into the band yields a rectangle the world accepts.
pub open spec fn placement_range_ok(
    w: Map<Id, crate::collision::Bounds>,
    min: Pos,
    max: Pos,
    width: i32,
    height: i32,
) -> bool {
    &&& min.x <= max.x && min.y <= max.y
    &&& forall|id: Id|
        #[trigger] w.contains_key(id) ==> {
            &&& min.x + half(w[id].width as int) > 0
            &&& min.y + half(w[id].height as int) > 0
            &&& max.x - half(w[id].width as int) < width
            &&& max.y - half(w[id].height as int) < height
        }
}

fn clamp_wide(val: i64, min: i32, max: i32) -> (r: i32)
    ensures
        r as int == spec_clamp(val as int, min as int, max as int),
{
    if val < min as i64 {
        min
    } else if val > max as i64 {
        max
    } else {
        val as i32
    }
}

fn integrate_vel(v: &Vel, a: &Acc, min: &Vel, max: &Vel) -> (r: Vel)
    ensures
        r == spec_integrate_vel(*v, *a, *min, *max),
{
    Vel {
        x: clamp_wide(v.x as i64 + a.x as i64, min.x, max.x),
        y: clamp_wide(v.y as i64 + a.y as i64, min.y, max.y),
    }
}

fn friction_y(vy: i32, f: i32) -> (r: i32)
    requires
        f >= 0,
    ensures
        r as int == spec_friction_y(vy as int, f as int),
{
    if vy > 0 {
        if (vy as i64) - (f as i64) < 0 {
            0
        } else {
            vy - f
        }
    } else if vy < 0 {
        if (vy as i64) + (f as i64) > 0 {
            0
        } else {
            vy + f
        }
    } else {
        0
    }
}

/// The physics system.
pub struct Physics;

impl Physics {
    /// One physics step over the whole registry.  Velocities integrate
    /// and decay; entities with a position, a velocity and an actor that
    /// are not marked for despawn move, clamped to the position band, and
    /// their bodies follow in the collision world.
    #[verifier::rlimit(100)]
    pub fn run(
        reg: &mut Registry,
        world: &mut World,
        vel_bounds: &Bounds<Vel>,
        pos_bounds: &Bounds<Pos>,
    )
        requires
            old(reg).wf(),
            old(world).wf(),
            forall|e: int|
                0 <= e < old(reg).n() && (#[trigger] old(reg).friction@[e]) is Some ==> (old(
                    reg,
                ).friction@[e]->0).0 >= 0,
            placement_range_ok(
                old(world)@,
                pos_bounds.min,
                pos_bounds.max,
                old(world).spec_width(),
                old(world).spec_height(),
            ),
            forall|e: int|
                0 <= e < old(reg).n() && spec_moves(
                    old(reg).pos@[e],
                    old(reg).vel@[e],
                    #[trigger] old(reg).actor@[e],
                    old(reg).to_despawn@[e],
                ) ==> old(world)@.contains_key(old(reg).actor@[e]->0.id),
            forall|e1: int, e2: int|
                0 <= e1 < e2 < old(reg).n() && spec_moves(
                    old(reg).pos@[e1],
                    old(reg).vel@[e1],
                    #[trigger] old(reg).actor@[e1],
                    old(reg).to_despawn@[e1],
                ) && spec_moves(
                    old(reg).pos@[e2],
                    old(reg).vel@[e2],
                    #[trigger] old(reg).actor@[e2],
                    old(reg).to_despawn@[e2],
                ) ==> old(reg).actor@[e1]->0.id != old(reg).actor@[e2]->0.id,
        ensures
            final(reg).wf(),
            final(reg).n() == old(reg).n(),
            final(reg).alive@ == old(reg).alive@,
            final(reg).acc@ == old(reg).acc@,
            final(reg).friction@ == old(reg).friction@,
            final(reg).bounciness@ == old(reg).bounciness@,
            final(reg).actor@ == old(reg).actor@,
            final(reg).player@ == old(reg).player@,
            final(reg).to_spawn@ == old(reg).to_spawn@,
            final(reg).to_despawn@ == old(reg).to_despawn@,
            final(reg).ping@ == old(reg).ping@,
            final(reg).pong@ == old(reg).pong@,
            forall|e: int|
                0 <= e < old(reg).n() ==> final(reg).vel@[e] == spec_vel_after(
                    old(reg).vel@[e],
                    old(reg).acc@[e],
                    #[trigger] old(reg).friction@[e],
                    vel_bounds.min,
                    vel_bounds.max,
                ),
            forall|e: int|
                0 <= e < old(reg).n() ==> final(reg).pos@[e] == (if spec_moves(
                    old(reg).pos@[e],
                    old(reg).vel@[e],
                    #[trigger] old(reg).actor@[e],
                    old(reg).to_despawn@[e],
                ) {
                    Some(
                        spec_pos_after(
                            old(reg).pos@[e]->0,
                            spec_vel_after(
                                old(reg).vel@[e],
                                old(reg).acc@[e],
                                old(reg).friction@[e],
                                vel_bounds.min,
                                vel_bounds.max,
                            )->0,
                            pos_bounds.min,
                            pos_bounds.max,
                        ),
                    )
                } else {
                    old(reg).pos@[e]
                }),
            final(world).wf(),
            final(world).spec_width() == old(world).spec_width(),
            final(world).spec_height() == old(world).spec_height(),
            forall|id: Id| final(world)@.contains_key(id) == old(world)@.contains_key(id),
            forall|e: int|
                0 <= e < old(reg).n() && spec_moves(
                    old(reg).pos@[e],
                    old(reg).vel@[e],
                    #[trigger] old(reg).actor@[e],
                    old(reg).to_despawn@[e],
                ) ==> final(world)@[old(reg).actor@[e]->0.id] == with_center(
                    old(world)@[old(reg).actor@[e]->0.id],
                    final(reg).pos@[e]->0,
                ),
            forall|id: Id|
                old(world)@.contains_key(id) && !(exists|e: int|
                    0 <= e < old(reg).n() && spec_moves(
                        old(reg).pos@[e],
                        old(reg).vel@[e],
                        #[trigger] old(reg).actor@[e],
                        old(reg).to_despawn@[e],
                    ) && old(reg).actor@[e]->0.id == id) ==> final(world)@[id] == old(world)@[id],
    {
        let n = reg.alive.len();
        let mut e: usize = 0;
        // integrate acceleration into velocity and apply friction
        while e < n
            invariant
                reg.wf(),
                n == old(reg).n(),
                reg.n() == n,
                0 <= e <= n,
                reg.alive@ == old(reg).alive@,
                reg.pos@ == old(reg).pos@,
                reg.acc@ == old(reg).acc@,
                reg.friction@ == old(reg).friction@,
                reg.bounciness@ == old(reg).bounciness@,
                reg.actor@ == old(reg).actor@,
                reg.player@ == old(reg).player@,
                reg.to_spawn@ == old(reg).to_spawn@,
                reg.to_despawn@ == old(reg).to_despawn@,
                reg.ping@ == old(reg).ping@,
                reg.pong@ == old(reg).pong@,
                forall|w: int|
                    0 <= w < n && (#[trigger] old(reg).friction@[w]) is Some ==> (old(
                        reg,
                    ).friction@[w]->0).0 >= 0,
                forall|w: int|
                    0 <= w < e ==> reg.vel@[w] == spec_vel_after(
                        old(reg).vel@[w],
                        old(reg).acc@[w],
                        #[trigger] old(reg).friction@[w],
                        vel_bounds.min,
                        vel_bounds.max,
                    ),
                forall|w: int| e <= w < n ==> reg.vel@[w] == old(reg).vel@[w],
            decreases n - e,
        {
            let v0 = reg.vel[e];
            let a0 = reg.acc[e];
            let v1 = match (v0, a0) {
                (Some(v), Some(a)) => Some(integrate_vel(&v, &a, &vel_bounds.min, &vel_bounds.max)),
                (v, _) => v,
            };
            let v2 = match (v1, reg.friction[e]) {
                (Some(v), Some(f)) => Some(Vel { x: v.x, y: friction_y(v.y, f.0) }),
                (v, _) => v,
            };
            reg.vel.set(e, v2);
            e = e + 1;
        }
        // integrate velocity into position and re-place moved bodies
        let mut e2: usize = 0;
        while e2 < n
            invariant
                reg.wf(),
                world.wf(),
                n == old(reg).n(),
                reg.n() == n,
                0 <= e2 <= n,
                world.spec_width() == old(world).spec_width(),
                world.spec_height() == old(world).spec_height(),
                placement_range_ok(
                    old(world)@,
                    pos_bounds.min,
                    pos_bounds.max,
                    old(world).spec_width(),
                    old(world).spec_height(),
                ),
                reg.alive@ == old(reg).alive@,
                reg.acc@ == old(reg).acc@,
                reg.friction@ == old(reg).friction@,
                reg.bounciness@ == old(reg).bounciness@,
                reg.actor@ == old(reg).actor@,
                reg.player@ == old(reg).player@,
                reg.to_spawn@ == old(reg).to_spawn@,
                reg.to_despawn@ == old(reg).to_despawn@,
                reg.ping@ == old(reg).ping@,
                reg.pong@ == old(reg).pong@,
                forall|w: int|
                    0 <= w < n ==> reg.vel@[w] == spec_vel_after(
                        old(reg).vel@[w],
                        old(reg).acc@[w],
                        #[trigger] old(reg).friction@[w],
                        vel_bounds.min,
                        vel_bounds.max,
                    ),
                forall|e1: int|
                    0 <= e1 < n && spec_moves(
                        old(reg).pos@[e1],
                        old(reg).vel@[e1],
                        #[trigger] old(reg).actor@[e1],
                        old(reg).to_despawn@[e1],
                    ) ==> old(world)@.contains_key(old(reg).actor@[e1]->0.id),
                forall|e1: int, e3: int|
                    0 <= e1 < e3 < n && spec_moves(
                        old(reg).pos@[e1],
                        old(reg).vel@[e1],
                        #[trigger] old(reg).actor@[e1],
                        old(reg).to_despawn@[e1],
                    ) && spec_moves(
                        old(reg).pos@[e3],
                        old(reg).vel@[e3],
                        #[trigger] old(reg).actor@[e3],
                        old(reg).to_despawn@[e3],
                    ) ==> old(reg).actor@[e1]->0.id != old(reg).actor@[e3]->0.id,
                forall|w: int|
                    0 <= w < e2 ==> reg.pos@[w] == (if spec_moves(
                        old(reg).pos@[w],
                        old(reg).vel@[w],
                        #[trigger] old(reg).actor@[w],
                        old(reg).to_despawn@[w],
                    ) {
                        Some(
                            spec_pos_after(
                                old(reg).pos@[w]->0,
                                reg.vel@[w]->0,
                                pos_bounds.min,
                                pos_bounds.max,
                            ),
                        )
                    } else {
                        old(reg).pos@[w]
                    }),
                forall|w: int| e2 <= w < n ==> reg.pos@[w] == old(reg).pos@[w],
                forall|id: Id| world@.contains_key(id) == old(world)@.contains_key(id),
                forall|w: int|
                    0 <= w < e2 && spec_moves(
                        old(reg).pos@[w],
                        old(reg).vel@[w],
                        #[trigger] old(reg).actor@[w],
                        old(reg).to_despawn@[w],
                    ) ==> world@[old(reg).actor@[w]->0.id] == with_center(
                        old(world)@[old(reg).actor@[w]->0.id],
                        reg.pos@[w]->0,
                    ),
                forall|id: Id|
                    old(world)@.contains_key(id) && !(exists|w: int|
                        0 <= w < e2 && spec_moves(
                            old(reg).pos@[w],
                            old(reg).vel@[w],
                            #[trigger] old(reg).actor@[w],
                            old(reg).to_despawn@[w],
                        ) && old(reg).actor@[w]->0.id == id) ==> world@[id] == old(world)@[id],
            decreases n - e2,
        {
            let moves = reg.pos[e2].is_some() && reg.vel[e2].is_some() && reg.actor[e2].is_some()
                && !reg.to_despawn[e2];
            if moves {
                let p0 = reg.pos[e2].unwrap();
                let v = reg.vel[e2].unwrap();
                let actor = reg.actor[e2].unwrap();
                proof {
                    assert(reg.actor@[e2 as int] == old(reg).actor@[e2 as int]);
                    assert(reg.vel@[e2 as int] == spec_vel_after(
                        old(reg).vel@[e2 as int],
                        old(reg).acc@[e2 as int],
                        old(reg).friction@[e2 as int],
                        vel_bounds.min,
                        vel_bounds.max,
                    ));
                    assert(old(reg).vel@[e2 as int] is Some);
                    assert(spec_moves(
                        old(reg).pos@[e2 as int],
                        old(reg).vel@[e2 as int],
                        old(reg).actor@[e2 as int],
                        old(reg).to_despawn@[e2 as int],
                    ));
                }
                let np = Pos {
                    x: clamp_wide(p0.x as i64 + v.x as i64, pos_bounds.min.x, pos_bounds.max.x),
                    y: clamp_wide(p0.y as i64 + v.y as i64, pos_bounds.min.y, pos_bounds.max.y),
                };
                reg.pos.set(e2, Some(np));
                proof {
                    assert(world@.contains_key(actor.id));
                    world.lemma_stored_placeable(actor.id);
                    assert(pos_bounds.min.x <= np.x <= pos_bounds.max.x);
                    assert(pos_bounds.min.y <= np.y <= pos_bounds.max.y);
                    assert(old(world)@.contains_key(actor.id));
                    assert(world@[actor.id] == old(world)@[actor.id]) by {
                        if exists|w: int|
                            0 <= w < e2 && spec_moves(
                                old(reg).pos@[w],
                                old(reg).vel@[w],
                                old(reg).actor@[w],
                                old(reg).to_despawn@[w],
                            ) && old(reg).actor@[w]->0.id == actor.id {
                            let w = choose|w: int|
                                0 <= w < e2 && spec_moves(
                                    old(reg).pos@[w],
                                    old(reg).vel@[w],
                                    old(reg).actor@[w],
                                    old(reg).to_despawn@[w],
                                ) && old(reg).actor@[w]->0.id == actor.id;
                            assert(old(reg).actor@[w]->0.id != old(reg).actor@[e2 as int]->0.id);
                        }
                    }
                    assert(placeable(
                        with_center(world@[actor.id], np),
                        world.spec_width(),
                        world.spec_height(),
                    ));
                }
                world.place(&actor.id, &np);
                proof {
                    assert forall|id: Id|
                        old(world)@.contains_key(id) && !(exists|w: int|
                            0 <= w < e2 + 1 && spec_moves(
                                old(reg).pos@[w],
                                old(reg).vel@[w],
                                #[trigger] old(reg).actor@[w],
                                old(reg).to_despawn@[w],
                            ) && old(reg).actor@[w]->0.id == id) implies world@[id] == old(world)@[id] by {
                        assert(id != actor.id);
                    }
                }
            }
            e2 = e2 + 1;
        }
    }
}

} // verus!
