//! Tearing actors marked for despawn out of the collision world.  The
//! entities themselves are deleted only at the tick's structural commit.

use vstd::prelude::*;
use crate::collision::World;
use crate::model::game::Id;
use crate::registry::Registry;

verus! {

/// The despawn system.
pub struct Despawn;

impl Despawn {
    /// Remove every actor marked for despawn from the collision world.
    /// The registry is left alone; deletion happens at the commit point.
    #[verifier::rlimit(100)]
    pub fn run(reg: &Registry, world: &mut World)
        requires
            reg.wf(),
            old(world).wf(),
        ensures
            final(world).wf(),
            final(world).spec_width() == old(world).spec_width(),
            final(world).spec_height() == old(world).spec_height(),
            forall|id: Id|
                (exists|e: int|
                    0 <= e < reg.n() && reg.to_despawn@[e] && (#[trigger] reg.actor@[e]) is Some
                        && reg.actor@[e]->0.id == id) ==> !(#[trigger] final(world)@.contains_key(id)),
            forall|id: Id|
                !(exists|e: int|
                    0 <= e < reg.n() && reg.to_despawn@[e] && (#[trigger] reg.actor@[e]) is Some
                        && reg.actor@[e]->0.id == id) ==> (#[trigger] final(world)@.contains_key(
                    id,
                )) == old(world)@.contains_key(id) && (old(world)@.contains_key(id) ==> final(world)@[id] == old(world)@[id]),
    {
        let n = reg.alive.len();
        let mut e: usize = 0;
        while e < n
            invariant
                reg.wf(),
                world.wf(),
                n == reg.n(),
                0 <= e <= n,
                world.spec_width() == old(world).spec_width(),
                world.spec_height() == old(world).spec_height(),
                forall|id: Id|
                    (exists|w: int|
                        0 <= w < e && reg.to_despawn@[w] && (#[trigger] reg.actor@[w]) is Some
                            && reg.actor@[w]->0.id == id) ==> !(#[trigger] world@.contains_key(id)),
                forall|id: Id|
                    !(exists|w: int|
                        0 <= w < e && reg.to_despawn@[w] && (#[trigger] reg.actor@[w]) is Some
                            && reg.actor@[w]->0.id == id) ==> (#[trigger] world@.contains_key(id))
                        == old(world)@.contains_key(id) && (old(world)@.contains_key(id)
                        ==> world@[id] == old(world)@[id]),
            decreases n - e,
        {
            let ghost w_pre: Map<Id, crate::collision::Bounds> = world@;
            let despawned = reg.to_despawn[e];
            let actor_opt = reg.actor[e];
            if despawned && actor_opt.is_some() {
                let actor = actor_opt.unwrap();
                world.remove(&actor.id);
            }
            e = e + 1;
            proof {
                assert forall|id: Id|
                    !(exists|w: int|
                        0 <= w < e && reg.to_despawn@[w] && (#[trigger] reg.actor@[w]) is Some
                            && reg.actor@[w]->0.id == id) implies ((#[trigger] world@.contains_key(
                    id,
                )) == old(world)@.contains_key(id) && (old(world)@.contains_key(id) ==> world@[id]
                    == old(world)@[id])) by {
                    assert(w_pre.contains_key(id) == w_pre.contains_key(id));
                    if despawned && actor_opt is Some {
                        assert(reg.actor@[e - 1] is Some);
                        assert(id != actor_opt->0.id);
                    }
                }
                assert forall|id: Id|
                    (exists|w: int|
                        0 <= w < e && reg.to_despawn@[w] && (#[trigger] reg.actor@[w]) is Some
                            && reg.actor@[w]->0.id == id) implies !(#[trigger] world@.contains_key(
                    id,
                )) by {
                    let w = choose|w: int|
                        0 <= w < e && reg.to_despawn@[w] && reg.actor@[w] is Some
                            && reg.actor@[w]->0.id == id;
                    if w < e - 1 {
                        assert(!w_pre.contains_key(id));
                    } else {
                        assert(despawned && actor_opt is Some);
                        assert(id == actor_opt->0.id);
                    }
                }
            }
        }
    }
}

} // verus!
