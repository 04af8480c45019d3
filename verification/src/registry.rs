//! Entity registry: sparse component storage over a growing arena of
//! entity slots.
//!
//! An entity is an index into parallel component columns.  Components are
//! attached and detached independently; deletions requested during a tick
//! are applied only at the tick's structural commit ([`Registry::maintain`]),
//! so no system ever observes a half-torn-down entity mid-tick.

use vstd::prelude::*;
use vstd::pervasive::VecAdditionalExecFns;
use crate::model::comp::{Acc, Actor, Friction, Player, Pong, Pos, Vel};

verus! {

/// The component columns, one entry per entity slot.
pub struct Registry {
    pub alive: Vec<bool>,
    pub pos: Vec<Option<Pos>>,
    pub vel: Vec<Option<Vel>>,
    pub acc: Vec<Option<Acc>>,
    pub friction: Vec<Option<Friction>>,
    pub bounciness: Vec<bool>,
    pub actor: Vec<Option<Actor>>,
    pub player: Vec<Option<Player>>,
    pub to_spawn: Vec<bool>,
    pub to_despawn: Vec<bool>,
    pub ping: Vec<bool>,
    pub pong: Vec<Option<Pong>>,
}

impl Registry {
    /// Number of entity slots.
    pub open spec fn n(&self) -> int {
        self.alive@.len() as int
    }

    /// All columns cover the same slots.
    pub open spec fn wf(&self) -> bool {
        &&& self.pos@.len() == self.n()
        &&& self.vel@.len() == self.n()
        &&& self.acc@.len() == self.n()
        &&& self.friction@.len() == self.n()
        &&& self.bounciness@.len() == self.n()
        &&& self.actor@.len() == self.n()
        &&& self.player@.len() == self.n()
        &&& self.to_spawn@.len() == self.n()
        &&& self.to_despawn@.len() == self.n()
        &&& self.ping@.len() == self.n()
        &&& self.pong@.len() == self.n()
    }

    /// An empty registry.
    pub fn new() -> (r: Self)
        ensures
            r.wf(),
            r.n() == 0,
    {
        Registry {
            alive: Vec::new(),
            pos: Vec::new(),
            vel: Vec::new(),
            acc: Vec::new(),
            friction: Vec::new(),
            bounciness: Vec::new(),
            actor: Vec::new(),
            player: Vec::new(),
            to_spawn: Vec::new(),
            to_despawn: Vec::new(),
            ping: Vec::new(),
            pong: Vec::new(),
        }
    }

    /// A fresh live entity with no components attached; its slot index is
    /// its handle.
    pub fn create_entity(&mut self) -> (e: usize)
        requires
            old(self).wf(),
        ensures
            final(self).wf(),
            e == old(self).n(),
            final(self).n() == old(self).n() + 1,
            final(self).alive@ == old(self).alive@.push(true),
            final(self).pos@ == old(self).pos@.push(None::<Pos>),
            final(self).vel@ == old(self).vel@.push(None::<Vel>),
            final(self).acc@ == old(self).acc@.push(None::<Acc>),
            final(self).friction@ == old(self).friction@.push(None::<Friction>),
            final(self).bounciness@ == old(self).bounciness@.push(false),
            final(self).actor@ == old(self).actor@.push(None::<Actor>),
            final(self).player@ == old(self).player@.push(None::<Player>),
            final(self).to_spawn@ == old(self).to_spawn@.push(false),
            final(self).to_despawn@ == old(self).to_despawn@.push(false),
            final(self).ping@ == old(self).ping@.push(false),
            final(self).pong@ == old(self).pong@.push(None::<Pong>),
    {
        let e = self.alive.len();
        self.alive.push(true);
        self.pos.push(None);
        self.vel.push(None);
        self.acc.push(None);
        self.friction.push(None);
        self.bounciness.push(false);
        self.actor.push(None);
        self.player.push(None);
        self.to_spawn.push(false);
        self.to_despawn.push(false);
        self.ping.push(false);
        self.pong.push(None);
        e
    }

    /// The structural commit at a tick's end: every slot marked for
    /// despawn dies and sheds all of its components; other slots stay
    /// exactly as they are.
    pub fn maintain(&mut self)
        requires
            old(self).wf(),
        ensures
            final(self).wf(),
            final(self).n() == old(self).n(),
            forall|e: int|
                0 <= e < old(self).n() && old(self).to_despawn@[e] ==> {
                    &&& final(self).alive@[e] == false
                    &&& final(self).pos@[e] == None::<Pos>
                    &&& final(self).vel@[e] == None::<Vel>
                    &&& final(self).acc@[e] == None::<Acc>
                    &&& final(self).friction@[e] == None::<Friction>
                    &&& final(self).bounciness@[e] == false
                    &&& final(self).actor@[e] == None::<Actor>
                    &&& final(self).player@[e] == None::<Player>
                    &&& final(self).to_spawn@[e] == false
                    &&& final(self).to_despawn@[e] == false
                    &&& final(self).ping@[e] == false
                    &&& final(self).pong@[e] == None::<Pong>
                },
            forall|e: int|
                0 <= e < old(self).n() && !old(self).to_despawn@[e] ==> {
                    &&& final(self).alive@[e] == old(self).alive@[e]
                    &&& final(self).pos@[e] == old(self).pos@[e]
                    &&& final(self).vel@[e] == old(self).vel@[e]
                    &&& final(self).acc@[e] == old(self).acc@[e]
                    &&& final(self).friction@[e] == old(self).friction@[e]
                    &&& final(self).bounciness@[e] == old(self).bounciness@[e]
                    &&& final(self).actor@[e] == old(self).actor@[e]
                    &&& final(self).player@[e] == old(self).player@[e]
                    &&& final(self).to_spawn@[e] == old(self).to_spawn@[e]
                    &&& final(self).to_despawn@[e] == false
                    &&& final(self).ping@[e] == old(self).ping@[e]
                    &&& final(self).pong@[e] == old(self).pong@[e]
                },
    {
        let mut e: usize = 0;
        while e < self.alive.len()
            invariant
                self.wf(),
                self.n() == old(self).n(),
                0 <= e <= self.n(),
                forall|w: int|
                    e <= w < old(self).n() ==> {
                        &&& self.alive@[w] == old(self).alive@[w]
                        &&& self.pos@[w] == old(self).pos@[w]
                        &&& self.vel@[w] == old(self).vel@[w]
                        &&& self.acc@[w] == old(self).acc@[w]
                        &&& self.friction@[w] == old(self).friction@[w]
                        &&& self.bounciness@[w] == old(self).bounciness@[w]
                        &&& self.actor@[w] == old(self).actor@[w]
                        &&& self.player@[w] == old(self).player@[w]
                        &&& self.to_spawn@[w] == old(self).to_spawn@[w]
                        &&& self.to_despawn@[w] == old(self).to_despawn@[w]
                        &&& self.ping@[w] == old(self).ping@[w]
                        &&& self.pong@[w] == old(self).pong@[w]
                    },
                forall|w: int|
                    0 <= w < e && old(self).to_despawn@[w] ==> {
                        &&& self.alive@[w] == false
                        &&& self.pos@[w] == None::<Pos>
                        &&& self.vel@[w] == None::<Vel>
                        &&& self.acc@[w] == None::<Acc>
                        &&& self.friction@[w] == None::<Friction>
                        &&& self.bounciness@[w] == false
                        &&& self.actor@[w] == None::<Actor>
                        &&& self.player@[w] == None::<Player>
                        &&& self.to_spawn@[w] == false
                        &&& self.to_despawn@[w] == false
                        &&& self.ping@[w] == false
                        &&& self.pong@[w] == None::<Pong>
                    },
                forall|w: int|
                    0 <= w < e && !old(self).to_despawn@[w] ==> {
                        &&& self.alive@[w] == old(self).alive@[w]
                        &&& self.pos@[w] == old(self).pos@[w]
                        &&& self.vel@[w] == old(self).vel@[w]
                        &&& self.acc@[w] == old(self).acc@[w]
                        &&& self.friction@[w] == old(self).friction@[w]
                        &&& self.bounciness@[w] == old(self).bounciness@[w]
                        &&& self.actor@[w] == old(self).actor@[w]
                        &&& self.player@[w] == old(self).player@[w]
                        &&& self.to_spawn@[w] == old(self).to_spawn@[w]
                        &&& self.to_despawn@[w] == false
                        &&& self.ping@[w] == old(self).ping@[w]
                        &&& self.pong@[w] == old(self).pong@[w]
                    },
            decreases self.n() - e,
        {
            if self.to_despawn[e] {
                self.alive.set(e, false);
                self.pos.set(e, None);
                self.vel.set(e, None);
                self.acc.set(e, None);
                self.friction.set(e, None);
                self.bounciness.set(e, false);
                self.actor.set(e, None);
                self.player.set(e, None);
                self.to_spawn.set(e, false);
                self.to_despawn.set(e, false);
                self.ping.set(e, false);
                self.pong.set(e, None);
            }
            e = e + 1;
        }
    }
}

} // verus!
