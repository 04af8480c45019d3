//! Small shared helpers: clamping, timestamp arithmetic and sequence-id
//! generation.

use vstd::prelude::*;

verus! {

/// What `clamp` computes: `val` forced into `[min, max]`, where `min` wins
/// over `max` if the range is empty.
pub open spec fn spec_clamp(val: int, min: int, max: int) -> int {
    if val < min {
        min
    } else if val > max {
        max
    } else {
        val
    }
}

/// Force `val` into the range `[min, max]`.
pub fn clamp(val: i32, min: i32, max: i32) -> (r: i32)
    ensures
        r == spec_clamp(val as int, min as int, max as int),
{
    match (val < min, val > max) {
        (true, _) => min,
        (_, true) => max,
        _ => val,
    }
}

/// Clamping is idempotent: clamping an already clamped value changes
/// nothing.  Holds whenever the range is non-empty.
pub proof fn lemma_clamp_idempotent(val: int, min: int, max: int)
    requires
        min <= max,
    ensures
        spec_clamp(spec_clamp(val, min, max), min, max) == spec_clamp(val, min, max),
{
}

/// Milliseconds elapsed between two timestamps, or an error when time ran
/// backwards.
pub fn elapsed_ms(from: u64, to: u64) -> (r: Result<u64, ()>)
    ensures
        from <= to ==> r == Ok::<u64, ()>((to - from) as u64),
        from > to ==> r == Err::<u64, ()>(()),
{
    if to >= from {
        Ok(to - from)
    } else {
        Err(())
    }
}

pub type SeqId = u32;

/// Generator of consecutive sequence ids, starting at 1.
pub struct SeqIdGen {
    pub curr_id: SeqId,
}

impl Default for SeqIdGen {
    /// A fresh generator; its first id is 1.
    fn default() -> (r: Self)
        ensures
            r.curr_id == 0,
    {
        SeqIdGen { curr_id: 0 }
    }
}

impl SeqIdGen {
    /// Hand out the next sequence id.
    pub fn gen(&mut self) -> (r: SeqId)
        requires
            old(self).curr_id < SeqId::MAX,
        ensures
            r == old(self).curr_id + 1,
            final(self).curr_id == old(self).curr_id + 1,
    {
        self.curr_id = self.curr_id + 1;
        self.curr_id
    }
}

/// Generator of connection ids; runs dry instead of wrapping around.
pub struct IdGen {
    pub count: u32,
}

impl IdGen {
    pub fn new() -> (r: Self)
        ensures
            r.count == 0,
    {
        IdGen { count: 0 }
    }

    /// The next fresh id, or `None` once every id has been handed out.
    pub fn next(&mut self) -> (r: Option<u32>)
        ensures
            old(self).count < u32::MAX ==> r == Some((old(self).count + 1) as u32)
                && final(self).count == old(self).count + 1,
            old(self).count == u32::MAX ==> r == None::<u32> && *final(self) == *old(self),
    {
        if self.count != u32::MAX {
            self.count = self.count + 1;
            Some(self.count)
        } else {
            None
        }
    }
}

} // verus!
