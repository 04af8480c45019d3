//! Bounce resolution for actors carrying `Bounciness`: contact with other
//! actors reflects and speeds up the horizontal velocity, leaving the
//! world horizontally counts as a score and respawns the actor, leaving it
//! vertically reflects.

use vstd::prelude::*;
use vstd::pervasive::VecAdditionalExecFns;
use vstd::math::abs;
use crate::collision::{CollisionObject, World};
use crate::model::comp::{Bounds, Pos, Vel};
use crate::registry::Registry;

verus! {

/// How much a contact speeds an actor up, per axis.
pub const SPEED_UP: i32 = 1;

/// Center an actor is reset to after leaving the world horizontally.
pub const RESPAWN_X: i32 = 500;

pub const RESPAWN_Y: i32 = 500;

pub const RESPAWN_VEL_X: i32 = 7;

pub const RESPAWN_VEL_Y: i32 = 11;

/// A velocity small enough for contact arithmetic never to overflow.
pub open spec fn vel_in_range(v: Vel) -> bool {
    -0x100000 <= v.x <= 0x100000 && -0x100000 <= v.y <= 0x100000
}

/// Velocity after one contact.  A contact from the exact same center
/// reflects horizontally; otherwise the horizontal speed grows by
/// [`SPEED_UP`] away from the contact — the half-plane the contact angle
/// falls in is decided by the sign of the horizontal distance — and the
/// vertical speed grows by [`SPEED_UP`] in its own direction.
pub open spec fn spec_contact_vel(own: Pos, ox: int, oy: int, v: Vel) -> Vel {
    if own.x == ox && own.y == oy {
        Vel { x: (0 - v.x) as i32, y: v.y }
    } else {
        let sx = abs(v.x as int) + SPEED_UP;
        let sy = if v.y > 0 {
            v.y + SPEED_UP
        } else if v.y < 0 {
            v.y - SPEED_UP
        } else {
            v.y as int
        };
        if ox > own.x {
            Vel { x: (0 - sx) as i32, y: sy as i32 }
        } else {
            Vel { x: sx as i32, y: sy as i32 }
        }
    }
}

/// Velocity after a whole list of contacts, applied in query order.
pub open spec fn spec_contacts_vel(own: Pos, v: Vel, cs: Seq<CollisionObject>) -> Vel
    decreases cs.len(),
{
    if cs.len() == 0 {
        v
    } else {
        spec_contacts_vel(
            own,
            spec_contact_vel(own, cs[0].bounds.x as int, cs[0].bounds.y as int, v),
            cs.drop_first(),
        )
    }
}

/// Position and velocity after the boundary check: leaving the world
/// horizontally respawns the actor at the center with a fixed serve
/// velocity, leaving it vertically reflects the vertical velocity.
pub open spec fn spec_boundary(p: Pos, v: Vel, min: Pos, max: Pos) -> (Pos, Vel) {
    let nx = p.x + v.x;
    let ny = p.y + v.y;
    let scored = nx > max.x || nx < min.x;
    let p1 = if scored {
        Pos { x: RESPAWN_X, y: RESPAWN_Y }
    } else {
        p
    };
    let v1 = if scored {
        Vel { x: RESPAWN_VEL_X, y: RESPAWN_VEL_Y }
    } else {
        v
    };
    let v2 = if ny > max.y || ny < min.y {
        Vel { x: v1.x, y: (0 - v1.y) as i32 }
    } else {
        v1
    };
    (p1, v2)
}

/// Apply one contact to the velocity.
pub fn contact_vel(own: &Pos, ox: i32, oy: i32, v: &Vel) -> (r: Vel)
    requires
        vel_in_range(*v),
    ensures
        r == spec_contact_vel(*own, ox as int, oy as int, *v),
{
    if own.x == ox && own.y == oy {
        Vel { x: -v.x, y: v.y }
    } else {
        let sx = if v.x < 0 {
            -v.x + SPEED_UP
        } else {
            v.x + SPEED_UP
        };
        let sy = if v.y > 0 {
            v.y + SPEED_UP
        } else if v.y < 0 {
            v.y - SPEED_UP
        } else {
            v.y
        };
        if ox > own.x {
            Vel { x: -sx, y: sy }
        } else {
            Vel { x: sx, y: sy }
        }
    }
}

/// Apply the boundary check.
pub fn boundary(p: &Pos, v: &Vel, min: &Pos, max: &Pos) -> (r: (Pos, Vel))
    requires
        vel_in_range(*v),
    ensures
        r == spec_boundary(*p, *v, *min, *max),
{
    let nx: i64 = p.x as i64 + v.x as i64;
    let ny: i64 = p.y as i64 + v.y as i64;
    let scored = nx > max.x as i64 || nx < min.x as i64;
    let p1 = if scored {
        Pos { x: RESPAWN_X, y: RESPAWN_Y }
    } else {
        *p
    };
    let v1 = if scored {
        Vel { x: RESPAWN_VEL_X, y: RESPAWN_VEL_Y }
    } else {
        *v
    };
    let v2 = if ny > max.y as i64 || ny < min.y as i64 {
        Vel { x: v1.x, y: -v1.y }
    } else {
        v1
    };
    (p1, v2)
}

/// The bounce system.
pub struct Bounce;

/// An eligible actor's velocity is moderate enough for every contact of
/// one bounce round to stay within [`vel_in_range`].
pub open spec fn vel_moderate(v: Vel) -> bool {
    -0x10000 <= v.x <= 0x10000 && -0x10000 <= v.y <= 0x10000
}

/// Whether `cs` lists exactly the actors currently overlapping `id`: each
/// entry a distinct other entity with its current bounds, overlapping
/// `id`'s bounds, and every such entity listed.
pub open spec fn spec_contact_listing(
    cs: Seq<CollisionObject>,
    m: Map<crate::model::game::Id, crate::collision::Bounds>,
    id: crate::model::game::Id,
) -> bool {
    &&& forall|i: int|
        #![trigger cs[i]]
        0 <= i < cs.len() ==> (m.contains_key(cs[i].id) && cs[i].id != id && cs[i].bounds
            == m[cs[i].id] && m[id].spec_intersects(cs[i].bounds))
    &&& forall|i: int, j: int| 0 <= i < j < cs.len() ==> cs[i].id != cs[j].id
    &&& forall|id2: crate::model::game::Id|
        m.contains_key(id2) && id2 != id && m[id].spec_intersects(#[trigger] m[id2]) ==> exists|
            i: int,
        | 0 <= i < cs.len() && cs[i].id == id2
}

/// A duplicate-free listing of entities of a finite map is no longer than
/// the map.
proof fn lemma_listing_bounded(
    cs: Seq<CollisionObject>,
    m: Map<crate::model::game::Id, crate::collision::Bounds>,
)
    requires
        m.dom().finite(),
        forall|i: int| #![trigger cs[i]] 0 <= i < cs.len() ==> m.contains_key(cs[i].id),
        forall|i: int, j: int| 0 <= i < j < cs.len() ==> cs[i].id != cs[j].id,
    ensures
        cs.len() <= m.dom().len(),
{
    let ids = Seq::new(cs.len(), |i: int| cs[i].id);
    assert(ids.no_duplicates()) by {
        assert forall|i: int, j: int|
            0 <= i < ids.len() && 0 <= j < ids.len() && i != j implies ids[i] != ids[j] by {
            if i < j {
                assert(cs[i].id != cs[j].id);
            } else {
                assert(cs[j].id != cs[i].id);
            }
        }
    }
    ids.unique_seq_to_set();
    assert(ids.to_set().subset_of(m.dom())) by {
        assert forall|x: crate::model::game::Id| ids.to_set().contains(x) implies m.dom().contains(
            x,
        ) by {
            let i = choose|i: int| 0 <= i < ids.len() && ids[i] == x;
            assert(m.contains_key(cs[i].id));
        }
    }
    vstd::set_lib::lemma_len_subset(ids.to_set(), m.dom());
}

impl Bounce {
    /// Resolve contacts and boundary events for every bouncy actor: its
    /// velocity folds over the actors currently overlapping it, in query
    /// order, then the boundary check runs on its position.
    #[verifier::rlimit(100)]
    pub fn run(reg: &mut Registry, world: &World, pos_bounds: &Bounds<Pos>)
        requires
            old(reg).wf(),
            world.wf(),
            world@.dom().len() <= 0x10000,
            forall|e: int|
                0 <= e < old(reg).n() && old(reg).bounciness@[e] && old(reg).pos@[e] is Some && old(reg).vel@[e] is Some && (#[trigger] old(reg).actor@[e]) is Some ==> world@.contains_key(
                    old(reg).actor@[e]->0.id,
                ) && vel_moderate(old(reg).vel@[e]->0),
        ensures
            final(reg).wf(),
            final(reg).n() == old(reg).n(),
            final(reg).alive@ == old(reg).alive@,
            final(reg).acc@ == old(reg).acc@,
            final(reg).friction@ == old(reg).friction@,
            final(reg).bounciness@ == old(reg).bounciness@,
            final(reg).actor@ == old(reg).actor@,
            final(reg).player@ == old(reg).player@,
            final(reg).to_spawn@ == old(reg).to_spawn@,
            final(reg).to_despawn@ == old(reg).to_despawn@,
            final(reg).ping@ == old(reg).ping@,
            final(reg).pong@ == old(reg).pong@,
            forall|e: int|
                0 <= e < old(reg).n() && !(old(reg).bounciness@[e] && old(reg).pos@[e] is Some
                    && old(reg).vel@[e] is Some && (#[trigger] old(reg).actor@[e]) is Some) ==> final(reg).pos@[e] == old(reg).pos@[e] && final(reg).vel@[e] == old(reg).vel@[e],
            // every bouncy actor folds over exactly its current overlaps,
            // then takes the boundary step
            forall|e: int|
                0 <= e < old(reg).n() && old(reg).bounciness@[e] && old(reg).pos@[e] is Some && old(reg).vel@[e] is Some && (#[trigger] old(reg).actor@[e]) is Some ==> exists|
                    cs: Seq<CollisionObject>,
                |
                    {
                        &&& spec_contact_listing(cs, world@, old(reg).actor@[e]->0.id)
                        &&& {
                            let stepped = spec_boundary(
                                old(reg).pos@[e]->0,
                                spec_contacts_vel(old(reg).pos@[e]->0, old(reg).vel@[e]->0, cs),
                                pos_bounds.min,
                                pos_bounds.max,
                            );
                            final(reg).pos@[e] == Some(stepped.0) && final(reg).vel@[e] == Some(
                                stepped.1,
                            )
                        }
                    },
    {
        let n = reg.alive.len();
        let mut e: usize = 0;
        while e < n
            invariant
                reg.wf(),
                world.wf(),
                world@.dom().len() <= 0x10000,
                n == old(reg).n(),
                reg.n() == n,
                0 <= e <= n,
                reg.alive@ == old(reg).alive@,
                reg.acc@ == old(reg).acc@,
                reg.friction@ == old(reg).friction@,
                reg.bounciness@ == old(reg).bounciness@,
                reg.actor@ == old(reg).actor@,
                reg.player@ == old(reg).player@,
                reg.to_spawn@ == old(reg).to_spawn@,
                reg.to_despawn@ == old(reg).to_despawn@,
                reg.ping@ == old(reg).ping@,
                reg.pong@ == old(reg).pong@,
                forall|e1: int|
                    0 <= e1 < n && old(reg).bounciness@[e1] && old(reg).pos@[e1] is Some && old(reg).vel@[e1] is Some && (#[trigger] old(reg).actor@[e1]) is Some
                        ==> world@.contains_key(old(reg).actor@[e1]->0.id) && vel_moderate(
                        old(reg).vel@[e1]->0,
                    ),
                forall|w: int|
                    0 <= w < n && !(old(reg).bounciness@[w] && old(reg).pos@[w] is Some && old(reg).vel@[w] is Some && (#[trigger] old(reg).actor@[w]) is Some) ==> reg.pos@[w]
                        == old(reg).pos@[w] && reg.vel@[w] == old(reg).vel@[w],
                forall|w: int|
                    e <= w < n ==> reg.pos@[w] == old(reg).pos@[w] && reg.vel@[w] == old(reg).vel@[w],
                forall|w: int|
                    0 <= w < e && old(reg).bounciness@[w] && old(reg).pos@[w] is Some && old(reg).vel@[w] is Some && (#[trigger] old(reg).actor@[w]) is Some ==> exists|
                        cs: Seq<CollisionObject>,
                    |
                        {
                            &&& spec_contact_listing(cs, world@, old(reg).actor@[w]->0.id)
                            &&& {
                                let stepped = spec_boundary(
                                    old(reg).pos@[w]->0,
                                    spec_contacts_vel(old(reg).pos@[w]->0, old(reg).vel@[w]->0, cs),
                                    pos_bounds.min,
                                    pos_bounds.max,
                                );
                                reg.pos@[w] == Some(stepped.0) && reg.vel@[w] == Some(stepped.1)
                            }
                        },
            decreases n - e,
        {
            let ghost e0: int = e as int;
            let eligible = reg.bounciness[e] && reg.pos[e].is_some() && reg.vel[e].is_some()
                && reg.actor[e].is_some();
            if eligible {
                let own = reg.pos[e].unwrap();
                let mut vel = reg.vel[e].unwrap();
                let actor = reg.actor[e].unwrap();
                let contacts = world.query_intersects_id(&actor.id);
                let ghost v0: Vel = vel;
                proof {
                    assert(vel_moderate(v0));
                    world.lemma_view_finite();
                    lemma_listing_bounded(contacts@, world@);
                }
                let mut k: usize = 0;
                while k < contacts.len()
                    invariant
                        0 <= k <= contacts@.len(),
                        contacts@.len() <= 0x10000,
                        vel_moderate(v0),
                        vel == spec_contacts_vel(own, v0, contacts@.subrange(0, k as int)),
                        -0x10000 - k <= vel.x <= 0x10000 + k,
                        -0x10000 - k <= vel.y <= 0x10000 + k,
                    decreases contacts@.len() - k,
                {
                    let c = contacts[k];
                    proof {
                        assert(contacts@.subrange(0, k as int + 1) =~= contacts@.subrange(
                            0,
                            k as int,
                        ).push(contacts@[k as int]));
                        lemma_contacts_vel_push(own, v0, contacts@.subrange(0, k as int), contacts@[k as int]);
                    }
                    let next = contact_vel(&own, c.bounds.x, c.bounds.y, &vel);
                    vel = next;
                    k = k + 1;
                }
                proof {
                    assert(contacts@.subrange(0, contacts@.len() as int) =~= contacts@);
                }
                let stepped = boundary(&own, &vel, &pos_bounds.min, &pos_bounds.max);
                reg.pos.set(e, Some(stepped.0));
                reg.vel.set(e, Some(stepped.1));
                proof {
                    assert(spec_contact_listing(contacts@, world@, actor.id)) by {
                        assert forall|i: int|
                            #![trigger contacts@[i]]
                            0 <= i < contacts@.len() implies (world@.contains_key(contacts@[i].id)
                            && contacts@[i].id != actor.id && contacts@[i].bounds
                            == world@[contacts@[i].id] && world@[actor.id].spec_intersects(
                            contacts@[i].bounds,
                        )) by {
                            let x = contacts@[i];
                        }
                    }
                    assert(reg.pos@[e0] == Some(stepped.0) && reg.vel@[e0] == Some(stepped.1));
                }
            }
            e = e + 1;
            proof {
                assert forall|w: int|
                    0 <= w < e && old(reg).bounciness@[w] && old(reg).pos@[w] is Some && old(reg).vel@[w] is Some && (#[trigger] old(reg).actor@[w]) is Some implies exists|
                        cs: Seq<CollisionObject>,
                    |
                        {
                            &&& spec_contact_listing(cs, world@, old(reg).actor@[w]->0.id)
                            &&& {
                                let stepped = spec_boundary(
                                    old(reg).pos@[w]->0,
                                    spec_contacts_vel(old(reg).pos@[w]->0, old(reg).vel@[w]->0, cs),
                                    pos_bounds.min,
                                    pos_bounds.max,
                                );
                                reg.pos@[w] == Some(stepped.0) && reg.vel@[w] == Some(stepped.1)
                            }
                        } by {
                    if w < e - 1 {
                        let cs = choose|cs: Seq<CollisionObject>|
                            {
                                &&& spec_contact_listing(cs, world@, old(reg).actor@[w]->0.id)
                                &&& {
                                    let stepped = spec_boundary(
                                        old(reg).pos@[w]->0,
                                        spec_contacts_vel(
                                            old(reg).pos@[w]->0,
                                            old(reg).vel@[w]->0,
                                            cs,
                                        ),
                                        pos_bounds.min,
                                        pos_bounds.max,
                                    );
                                    reg.pos@[w] == Some(stepped.0) && reg.vel@[w] == Some(
                                        stepped.1,
                                    )
                                }
                            };
                    }
                }
            }
        }
    }
}

/// One more contact folds onto the end of the list.
proof fn lemma_contacts_vel_push(own: Pos, v: Vel, cs: Seq<CollisionObject>, c: CollisionObject)
    ensures
        spec_contacts_vel(own, v, cs.push(c)) == spec_contact_vel(
            own,
            c.bounds.x as int,
            c.bounds.y as int,
            spec_contacts_vel(own, v, cs),
        ),
    decreases cs.len(),
{
    if cs.len() == 0 {
        assert(cs.push(c)[0] == c);
        assert(cs.push(c).drop_first() =~= cs);
        assert(spec_contacts_vel(own, v, cs) == v);
        assert(spec_contacts_vel(
            own,
            spec_contact_vel(own, c.bounds.x as int, c.bounds.y as int, v),
            cs,
        ) == spec_contact_vel(own, c.bounds.x as int, c.bounds.y as int, v));
    } else {
        assert(cs.push(c)[0] == cs[0]);
        assert(cs.push(c).drop_first() =~= cs.drop_first().push(c));
        let v1 = spec_contact_vel(own, cs[0].bounds.x as int, cs[0].bounds.y as int, v);
        lemma_contacts_vel_push(own, v1, cs.drop_first(), c);
        assert(spec_contacts_vel(own, v, cs.push(c)) == spec_contacts_vel(
            own,
            v1,
            cs.push(c).drop_first(),
        ));
        assert(spec_contacts_vel(own, v, cs) == spec_contacts_vel(own, v1, cs.drop_first()));
    }
}

} // verus!
