//! Building the simulation's starting state: an empty registry, the
//! clamping bands and the ping-sequence generator.

use vstd::prelude::*;
use crate::ecs::Config;
use crate::model::comp::{Acc, Bounds, Pos, Vel};
use crate::registry::Registry;
use crate::util::SeqIdGen;

verus! {

/// The empty world every game starts from: no entities, acceleration
/// clamped to five units, velocity to fifty, positions to the thousand-unit
/// arena, and a fresh ping-sequence generator.
pub fn prepare_world() -> (r: (Registry, Config, SeqIdGen))
    ensures
        r.0.wf(),
        r.0.n() == 0,
        r.1.acc_bounds.min == (Acc { x: -5i32, y: -5i32 }),
        r.1.acc_bounds.max == (Acc { x: 5, y: 5 }),
        r.1.vel_bounds.min == (Vel { x: -50i32, y: -50i32 }),
        r.1.vel_bounds.max == (Vel { x: 50, y: 50 }),
        r.1.pos_bounds.min == (Pos { x: 0, y: 0 }),
        r.1.pos_bounds.max == (Pos { x: 1000, y: 1000 }),
        r.2.curr_id == 0,
{
    let registry = Registry::new();
    let config = Config {
        acc_bounds: Bounds { min: Acc { x: -5, y: -5 }, max: Acc { x: 5, y: 5 } },
        vel_bounds: Bounds { min: Vel { x: -50, y: -50 }, max: Vel { x: 50, y: 50 } },
        pos_bounds: Bounds { min: Pos { x: 0, y: 0 }, max: Pos { x: 1000, y: 1000 } },
    };
    (registry, config, SeqIdGen { curr_id: 0 })
}

} // verus!
