//! The fixed-timestep accumulator that drives the simulation.
//!
//! A wall-clock frame first adds its elapsed time to the carried lag; the
//! simulation then ticks once per whole timestep contained in the total,
//! and the remainder is carried into the next frame — never dropped, and
//! never causing catch-up ticks beyond what elapsed time justifies.  The
//! loop itself, with its clock and its transport, lives outside; it asks
//! [`ticks_due`] how often to tick and keeps the returned lag.

use vstd::prelude::*;
use vstd::arithmetic::div_mod::lemma_fundamental_div_mod;
use crate::model::comp::{Acc, Bounds, Pos, Vel};

verus! {

/// The per-axis bands the simulation clamps into, fixed at start-up.
pub struct Config {
    pub acc_bounds: Bounds<Acc>,
    pub vel_bounds: Bounds<Vel>,
    pub pos_bounds: Bounds<Pos>,
}

/// How many simulation ticks one frame runs, and the lag carried forward:
/// exactly the whole timesteps in `lag + elapsed`, with the remainder kept.
pub fn ticks_due(lag: u64, elapsed: u64, ms_per_update: u64) -> (r: (u64, u64))
    requires
        ms_per_update > 0,
        lag + elapsed <= u64::MAX,
    ensures
        r.0 == (lag + elapsed) as int / ms_per_update as int,
        r.1 == (lag + elapsed) as int % ms_per_update as int,
        lag + elapsed == r.0 * ms_per_update + r.1,
        r.1 < ms_per_update,
    {
    let total = lag + elapsed;
    proof {
        lemma_fundamental_div_mod(total as int, ms_per_update as int);
    }
    (total / ms_per_update, total % ms_per_update)
}

} // verus!
