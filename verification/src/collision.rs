//! The spatial collision world: a uniform-grid spatial hash over
//! axis-aligned rectangles.
//!
//! Entities are bucketed by the grid cell their center falls in, so overlap
//! queries only have to look at a bucket and its eight neighbors.  That
//! shortcut is sound only while every body is at most one cell wide and
//! high; insertion demands it, and the structural invariant [`World::wf`]
//! carries it, together with the guarantee that every entity sits in
//! exactly the bucket computed from its current bounds.

use vstd::prelude::*;
use vstd::math::abs;
use vstd::arithmetic::div_mod::{
    lemma_basic_div, lemma_div_is_ordered, lemma_fundamental_div_mod,
    lemma_mod_division_less_than_divisor,
};
use crate::model::comp::Pos;
use crate::model::game::Id;
use std::collections::HashMap;

verus! {

broadcast use
    vstd::std_specs::hash::group_hash_axioms,
    vstd::seq_lib::group_seq_properties,
    vstd::seq_lib::group_filter_ensures,
;

/// Side length of one grid cell, in world units.
pub const CELL_SIZE: i32 = 100;

/// An axis-aligned rectangle given by its center and its full extents.
#[derive(Clone, Copy, Debug, PartialEq, Eq, Structural)]
pub struct Bounds {
    pub x: i32,
    pub y: i32,
    pub width: i32,
    pub height: i32,
}

/// Rust's truncating halving, total over `int`.
pub open spec fn half(v: int) -> int {
    if v >= 0 {
        v / 2
    } else {
        -((-v) / 2)
    }
}

impl Bounds {
    /// Strict overlap: rectangles that only touch along an edge do not
    /// intersect.
    pub open spec fn spec_intersects(self, other: Bounds) -> bool {
        &&& abs(self.x - other.x) * 2 < self.width + other.width
        &&& abs(self.y - other.y) * 2 < self.height + other.height
    }

    /// `self` contains `other` when every edge of `other` lies within or
    /// on the edges of `self`.
    pub open spec fn spec_contains(self, other: Bounds) -> bool {
        &&& other.x - half(other.width as int) >= self.x - half(self.width as int)
        &&& other.y - half(other.height as int) >= self.y - half(self.height as int)
        &&& other.x + half(other.width as int) <= self.x + half(self.width as int)
        &&& other.y + half(other.height as int) <= self.y + half(self.height as int)
    }

    pub fn intersects(&self, other: &Self) -> (r: bool)
        ensures
            r == self.spec_intersects(*other),
    {
        let dx: i64 = self.x as i64 - other.x as i64;
        let adx: i64 = if dx < 0 { -dx } else { dx };
        let dy: i64 = self.y as i64 - other.y as i64;
        let ady: i64 = if dy < 0 { -dy } else { dy };
        adx * 2 < self.width as i64 + other.width as i64 && ady * 2 < self.height as i64
            + other.height as i64
    }

    pub fn contains(&self, other: &Self) -> (r: bool)
        ensures
            r == self.spec_contains(*other),
    {
        let sw: i64 = half_i64(self.width as i64);
        let sh: i64 = half_i64(self.height as i64);
        let ow: i64 = half_i64(other.width as i64);
        let oh: i64 = half_i64(other.height as i64);
        other.x as i64 - ow >= self.x as i64 - sw && other.y as i64 - oh >= self.y as i64 - sh
            && other.x as i64 + ow <= self.x as i64 + sw && other.y as i64 + oh <= self.y as i64
            + sh
    }
}

/// Overlap is symmetric: `a` intersects `b` exactly when `b` intersects
/// `a`.
pub proof fn lemma_intersects_symmetric(a: Bounds, b: Bounds)
    ensures
        a.spec_intersects(b) == b.spec_intersects(a),
{
}

/// Overlap is strict: rectangles whose edges merely touch on one axis do
/// not intersect.
pub proof fn lemma_intersects_strict(a: Bounds, b: Bounds)
    requires
        abs(a.x - b.x) * 2 == a.width + b.width || abs(a.y - b.y) * 2 == a.height + b.height,
    ensures
        !a.spec_intersects(b),
{
}

fn half_i64(v: i64) -> (r: i64)
    requires
        i32::MIN <= v <= i32::MAX,
    ensures
        r == half(v as int),
{
    if v >= 0 {
        v / 2
    } else {
        -((-v) / 2)
    }
}

/// The grid column or row an axis coordinate falls in.  Centers slightly
/// left of the origin share column zero, exactly as Rust's truncating
/// division places them.
pub open spec fn cell_index(v: int) -> int {
    if v < 0 {
        0
    } else {
        v / (CELL_SIZE as int)
    }
}

/// The two cell coordinates packed into one bucket key.
pub open spec fn cell_key_at(cx: int, cy: int) -> u64 {
    (cx * 0x1_0000_0000 + cy) as u64
}

/// The bucket key of the cell a rectangle's center falls in.
pub open spec fn cell_key(b: Bounds) -> u64 {
    cell_key_at(cell_index(b.x as int), cell_index(b.y as int))
}

proof fn lemma_cell_index_bounds(v: int)
    requires
        i32::MIN <= v <= i32::MAX,
    ensures
        0 <= cell_index(v) < 0x1_0000_0000,
{
    if v >= 0 {
        assert(0 <= v / 100 <= v) by (nonlinear_arith)
            requires
                v >= 0,
        ;
    }
}

/// Distinct cells have distinct bucket keys.
proof fn lemma_cell_key_at_injective(cx1: int, cy1: int, cx2: int, cy2: int)
    requires
        0 <= cx1 < 0x1_0000_0000,
        0 <= cy1 < 0x1_0000_0000,
        0 <= cx2 < 0x1_0000_0000,
        0 <= cy2 < 0x1_0000_0000,
        cell_key_at(cx1, cy1) == cell_key_at(cx2, cy2),
    ensures
        cx1 == cx2 && cy1 == cy2,
{
    assert(cx1 * 0x1_0000_0000 + cy1 == cx2 * 0x1_0000_0000 + cy2);
}

fn cell_coord(v: i32) -> (c: u32)
    ensures
        c == cell_index(v as int),
{
    if v < 0 {
        0
    } else {
        (v as u32) / (CELL_SIZE as u32)
    }
}

fn bucket_key(b: &Bounds) -> (k: u64)
    ensures
        k == cell_key(*b),
{
    let cx = cell_coord(b.x);
    let cy = cell_coord(b.y);
    (cx as u64) * 0x1_0000_0000u64 + (cy as u64)
}

/// A rectangle no larger than one grid cell on either axis whose center is
/// not far left of or above the origin.  Exactly these rectangles are safe
/// for the neighbor-bounded scan.
pub open spec fn cell_sized(b: Bounds) -> bool {
    &&& 0 <= b.width <= CELL_SIZE
    &&& 0 <= b.height <= CELL_SIZE
    &&& b.x + half(b.width as int) > 0
    &&& b.y + half(b.height as int) > 0
}

/// A rectangle the world accepts: [`cell_sized`] and at least partially
/// inside the world's extents.
pub open spec fn placeable(b: Bounds, width: i32, height: i32) -> bool {
    &&& cell_sized(b)
    &&& b.x - half(b.width as int) < width
    &&& b.y - half(b.height as int) < height
}

/// The given bounds moved so its center is `pos`, extents kept.
pub open spec fn with_center(b: Bounds, pos: Pos) -> Bounds {
    Bounds { x: pos.x, y: pos.y, width: b.width, height: b.height }
}

/// One entity reported by a query: its id and its current bounds.
#[derive(Clone, Copy, Debug, PartialEq, Eq, Structural)]
pub struct CollisionObject {
    pub id: Id,
    pub bounds: Bounds,
}

/// The spatial hash.  Its abstract value (the view) is the map from entity
/// id to current bounds; the grid of buckets is an internal index over it.
pub struct World {
    width: i32,
    height: i32,
    cell_size: i32,
    entities: HashMap<Id, Bounds>,
    grid: HashMap<u64, Vec<Id>>,
    cells: Vec<u64>,
}

impl View for World {
    type V = Map<Id, Bounds>;

    closed spec fn view(&self) -> Map<Id, Bounds> {
        self.entities@
    }
}

impl World {
    pub closed spec fn spec_width(&self) -> i32 {
        self.width
    }

    pub closed spec fn spec_height(&self) -> i32 {
        self.height
    }

    /// Every stored rectangle is accepted by [`placeable`] and indexed in
    /// the bucket of its own cell.
    closed spec fn entities_ok(&self) -> bool {
        forall|id: Id| #[trigger]
            self.entities@.contains_key(id) ==> {
                &&& placeable(self.entities@[id], self.width, self.height)
                &&& self.grid@.contains_key(cell_key(self.entities@[id]))
                &&& self.grid@[cell_key(self.entities@[id])]@.contains(id)
            }
    }

    /// Every bucket member is a live entity whose cell is that bucket.
    closed spec fn buckets_ok(&self) -> bool {
        forall|k: u64, i: int|
            #![trigger self.grid@[k]@[i]]
            self.grid@.contains_key(k) && 0 <= i < self.grid@[k]@.len() ==> {
                &&& self.entities@.contains_key(self.grid@[k]@[i])
                &&& cell_key(self.entities@[self.grid@[k]@[i]]) == k
            }
    }

    /// No bucket lists an id twice.
    closed spec fn buckets_nodup(&self) -> bool {
        forall|k: u64, i: int, j: int|
            #![trigger self.grid@[k]@[i], self.grid@[k]@[j]]
            self.grid@.contains_key(k) && 0 <= i < j < self.grid@[k]@.len() ==> self.grid@[k]@[i]
                != self.grid@[k]@[j]
    }

    /// The cell list enumerates the bucket keys, each exactly once.
    closed spec fn cells_ok(&self) -> bool {
        &&& forall|k: u64| self.grid@.contains_key(k) <==> #[trigger] self.cells@.contains(k)
        &&& forall|i: int, j: int|
            #![trigger self.cells@[i], self.cells@[j]]
            0 <= i < j < self.cells@.len() ==> self.cells@[i] != self.cells@[j]
    }

    /// The structural invariant: every live id sits in exactly one bucket,
    /// namely the one computed from its current bounds, and every stored
    /// rectangle fits the world.
    pub closed spec fn wf(&self) -> bool {
        &&& self.cell_size == CELL_SIZE
        &&& self.entities_ok()
        &&& self.buckets_ok()
        &&& self.buckets_nodup()
        &&& self.cells_ok()
    }

    /// Every stored rectangle is accepted by [`placeable`]; what the
    /// structural invariant guarantees of a single entry.
    pub proof fn lemma_stored_placeable(&self, id: Id)
        requires
            self.wf(),
            self@.contains_key(id),
        ensures
            placeable(self@[id], self.spec_width(), self.spec_height()),
    {
        assert(self.entities@.contains_key(id));
    }

    /// A world's abstract map covers finitely many ids.
    pub proof fn lemma_view_finite(&self)
        ensures
            self@.dom().finite(),
    {
        assert(self@ == self.entities@);
    }

    /// How many entities the world currently holds.
    pub fn count(&self) -> (c: usize)
        ensures
            c == self@.dom().len(),
    {
        self.entities.len()
    }

    /// Whether an entity is currently registered under `id`.
    pub fn contains_id(&self, id: &Id) -> (r: bool)
        ensures
            r == self@.contains_key(*id),
    {
        self.entities.contains_key(id)
    }

    /// An empty world of the given extents.
    pub fn new(width: i32, height: i32) -> (r: Self)
        ensures
            r.wf(),
            r@ == Map::<Id, Bounds>::empty(),
            r.spec_width() == width,
            r.spec_height() == height,
    {
        World {
            width,
            height,
            cell_size: CELL_SIZE,
            entities: HashMap::new(),
            grid: HashMap::new(),
            cells: Vec::new(),
        }
    }

    /// Register a new entity under `id` with the given bounds.
    pub fn add(&mut self, id: Id, bounds: Bounds)
        requires
            old(self).wf(),
            !old(self)@.contains_key(id),
            placeable(bounds, old(self).spec_width(), old(self).spec_height()),
        ensures
            final(self).wf(),
            final(self)@ == old(self)@.insert(id, bounds),
            final(self).spec_width() == old(self).spec_width(),
            final(self).spec_height() == old(self).spec_height(),
    {
        let key = bucket_key(&bounds);
        self.entities.insert(id, bounds);
        let bucket_opt = self.grid.remove(&key);
        let ghost had_bucket: bool = bucket_opt is Some;
        let ghost old_bucket: Seq<Id> = if bucket_opt is Some {
            bucket_opt->Some_0@
        } else {
            Seq::empty()
        };
        let mut bucket = match bucket_opt {
            Some(b) => b,
            None => {
                self.cells.push(key);
                Vec::new()
            },
        };
        bucket.push(id);
        self.grid.insert(key, bucket);
        proof {
            assert(self.grid@ =~= old(self).grid@.insert(key, self.grid@[key]));
            self.lemma_wf_after_bucket_push(*old(self), id, bounds, had_bucket, old_bucket);
        }
    }

    /// Restores the invariant after `add` appended `id` to the bucket of
    /// its cell, creating the bucket first when the cell was empty.
    proof fn lemma_wf_after_bucket_push(
        &self,
        pre: World,
        id: Id,
        bounds: Bounds,
        had_bucket: bool,
        old_bucket: Seq<Id>,
    )
        requires
            pre.wf(),
            !pre.entities@.contains_key(id),
            placeable(bounds, pre.width, pre.height),
            self.width == pre.width,
            self.height == pre.height,
            self.cell_size == pre.cell_size,
            self.entities@ == pre.entities@.insert(id, bounds),
            had_bucket == pre.grid@.contains_key(cell_key(bounds)),
            old_bucket == if had_bucket {
                pre.grid@[cell_key(bounds)]@
            } else {
                Seq::<Id>::empty()
            },
            self.grid@ == pre.grid@.insert(cell_key(bounds), self.grid@[cell_key(bounds)]),
            self.grid@[cell_key(bounds)]@ == old_bucket.push(id),
            self.cells@ == if had_bucket {
                pre.cells@
            } else {
                pre.cells@.push(cell_key(bounds))
            },
        ensures
            self.wf(),
            self@ == pre@.insert(id, bounds),
    {
        let k = cell_key(bounds);
        let e0 = pre.entities@;
        let e1 = self.entities@;
        let g0 = pre.grid@;
        let g1 = self.grid@;
        assert(g1[k]@[old_bucket.len() as int] == id);
        assert forall|id2: Id| #[trigger] e1.contains_key(id2) implies (placeable(
            e1[id2],
            self.width,
            self.height,
        ) && g1.contains_key(cell_key(e1[id2])) && g1[cell_key(e1[id2])]@.contains(id2)) by {
            if id2 == id {
                assert(g1[k]@.contains(id));
            } else {
                assert(e0.contains_key(id2));
                let k2 = cell_key(e0[id2]);
                assert(g0[k2]@.contains(id2));
                if k2 == k {
                    let w = choose|w: int| 0 <= w < old_bucket.len() && old_bucket[w] == id2;
                    assert(g1[k]@[w] == id2);
                } else {
                    assert(g1[k2] == g0[k2]);
                }
            }
        }
        assert forall|k2: u64, i: int|
            #![trigger self.grid@[k2]@[i]]
            g1.contains_key(k2) && 0 <= i < g1[k2]@.len() implies (e1.contains_key(g1[k2]@[i])
            && cell_key(e1[g1[k2]@[i]]) == k2) by {
            if k2 == k {
                if i < old_bucket.len() {
                    assert(g1[k]@[i] == old_bucket[i]);
                    assert(e0.contains_key(old_bucket[i]));
                } else {
                    assert(g1[k]@[i] == id);
                }
            } else {
                assert(g1[k2] == g0[k2]);
                assert(e0.contains_key(g0[k2]@[i]));
            }
        }
        assert forall|k2: u64, i: int, j: int|
            #![trigger self.grid@[k2]@[i], self.grid@[k2]@[j]]
            g1.contains_key(k2) && 0 <= i < j < g1[k2]@.len() implies g1[k2]@[i] != g1[k2]@[j] by {
            if k2 == k {
                assert(g1[k]@[i] == old_bucket[i]);
                assert(e0.contains_key(old_bucket[i]));
                if j < old_bucket.len() {
                    assert(g1[k]@[j] == old_bucket[j]);
                } else {
                    assert(g1[k]@[j] == id);
                }
            } else {
                assert(g1[k2] == g0[k2]);
            }
        }
        assert forall|k2: u64| g1.contains_key(k2) <==> #[trigger] self.cells@.contains(k2) by {
            if had_bucket {
                assert(g1.contains_key(k2) == g0.contains_key(k2));
            } else {
                if k2 == k {
                    assert(self.cells@[pre.cells@.len() as int] == k);
                    assert(self.cells@.contains(k));
                } else {
                    if pre.cells@.contains(k2) {
                        let w = choose|w: int|
                            0 <= w < pre.cells@.len() && pre.cells@[w] == k2;
                        assert(self.cells@[w] == k2);
                    }
                    if self.cells@.contains(k2) {
                        let w = choose|w: int|
                            0 <= w < self.cells@.len() && self.cells@[w] == k2;
                        assert(w < pre.cells@.len());
                        assert(pre.cells@[w] == k2);
                    }
                }
            }
        }
        assert forall|i: int, j: int|
            #![trigger self.cells@[i], self.cells@[j]]
            0 <= i < j < self.cells@.len() implies self.cells@[i] != self.cells@[j] by {
            if !had_bucket && j == pre.cells@.len() {
                assert(self.cells@[i] == pre.cells@[i]);
                assert(pre.cells@.contains(pre.cells@[i]));
                assert(g0.contains_key(pre.cells@[i]));
            }
        }
    }

    /// Remove an entity and report the bounds it had, or `None` when the
    /// id is unknown.
    pub fn remove(&mut self, id: &Id) -> (r: Option<Bounds>)
        requires
            old(self).wf(),
        ensures
            final(self).wf(),
            final(self).spec_width() == old(self).spec_width(),
            final(self).spec_height() == old(self).spec_height(),
            old(self)@.contains_key(*id) ==> r == Some(old(self)@[*id]) && final(self)@ == old(self)@.remove(*id),
            !old(self)@.contains_key(*id) ==> r == None::<Bounds> && final(self)@ == old(self)@,
    {
        match self.entities.remove(id) {
            Some(bounds) => {
                let key = bucket_key(&bounds);
                let mut bucket = self.grid.remove(&key).unwrap();
                let pos = index_of_id(&bucket, *id);
                bucket.remove(pos);
                self.grid.insert(key, bucket);
                Some(bounds)
            },
            None => None,
        }
    }

    /// Move a known entity's center to `pos`, keeping its extents, and
    /// rebucket it if its cell changed.
    pub fn place(&mut self, id: &Id, pos: &Pos)
        requires
            old(self).wf(),
            old(self)@.contains_key(*id),
            placeable(
                with_center(old(self)@[*id], *pos),
                old(self).spec_width(),
                old(self).spec_height(),
            ),
        ensures
            final(self).wf(),
            final(self)@ == old(self)@.insert(*id, with_center(old(self)@[*id], *pos)),
            final(self).spec_width() == old(self).spec_width(),
            final(self).spec_height() == old(self).spec_height(),
    {
        let mut bounds = *self.entities.get(id).unwrap();
        let old_key = bucket_key(&bounds);
        bounds.x = pos.x;
        bounds.y = pos.y;
        let new_key = bucket_key(&bounds);
        self.entities.insert(*id, bounds);
        if old_key != new_key {
            let mut old_bucket = self.grid.remove(&old_key).unwrap();
            let p = index_of_id(&old_bucket, *id);
            let ghost ob0: Seq<Id> = old_bucket@;
            old_bucket.remove(p);
            self.grid.insert(old_key, old_bucket);
            let bucket_opt = self.grid.remove(&new_key);
            let ghost had_bucket: bool = bucket_opt is Some;
            let ghost nb0: Seq<Id> = if bucket_opt is Some {
                bucket_opt->Some_0@
            } else {
                Seq::empty()
            };
            let mut new_bucket = match bucket_opt {
                Some(b) => b,
                None => {
                    self.cells.push(new_key);
                    Vec::new()
                },
            };
            new_bucket.push(*id);
            self.grid.insert(new_key, new_bucket);
            proof {
                assert(self.grid@ =~= old(self).grid@.insert(old_key, self.grid@[old_key]).insert(
                    new_key,
                    self.grid@[new_key],
                ));
                self.lemma_wf_after_rebucket(*old(self), *id, bounds, p as int, had_bucket, nb0);
            }
        } else {
            proof {
                let e0 = old(self).entities@;
                let e1 = self.entities@;
                let g1 = self.grid@;
                assert forall|id2: Id| #[trigger] e1.contains_key(id2) implies (placeable(
                    e1[id2],
                    self.width,
                    self.height,
                ) && g1.contains_key(cell_key(e1[id2])) && g1[cell_key(e1[id2])]@.contains(
                    id2,
                )) by {
                    if id2 != *id {
                        assert(e0.contains_key(id2));
                    } else {
                        assert(cell_key(e1[id2]) == cell_key(e0[id2]));
                    }
                }
                assert forall|k2: u64, i: int|
                    #![trigger self.grid@[k2]@[i]]
                    g1.contains_key(k2) && 0 <= i < g1[k2]@.len() implies (e1.contains_key(
                    g1[k2]@[i],
                ) && cell_key(e1[g1[k2]@[i]]) == k2) by {
                    assert(e0.contains_key(g1[k2]@[i]));
                }
            }
        }
    }

    /// Restores the invariant after `place` moved `id` from the bucket of
    /// its old cell into the bucket of its new one.
    proof fn lemma_wf_after_rebucket(
        &self,
        pre: World,
        id: Id,
        nb: Bounds,
        p: int,
        had_bucket: bool,
        nb0: Seq<Id>,
    )
        requires
            pre.wf(),
            pre.entities@.contains_key(id),
            placeable(nb, pre.width, pre.height),
            cell_key(nb) != cell_key(pre.entities@[id]),
            self.width == pre.width,
            self.height == pre.height,
            self.cell_size == pre.cell_size,
            self.entities@ == pre.entities@.insert(id, nb),
            0 <= p < pre.grid@[cell_key(pre.entities@[id])]@.len(),
            pre.grid@[cell_key(pre.entities@[id])]@[p] == id,
            had_bucket == pre.grid@.contains_key(cell_key(nb)),
            nb0 == if had_bucket {
                pre.grid@[cell_key(nb)]@
            } else {
                Seq::<Id>::empty()
            },
            self.grid@ == pre.grid@.insert(
                cell_key(pre.entities@[id]),
                self.grid@[cell_key(pre.entities@[id])],
            ).insert(cell_key(nb), self.grid@[cell_key(nb)]),
            self.grid@[cell_key(pre.entities@[id])]@ == pre.grid@[cell_key(
                pre.entities@[id],
            )]@.remove(p),
            self.grid@[cell_key(nb)]@ == nb0.push(id),
            self.cells@ == if had_bucket {
                pre.cells@
            } else {
                pre.cells@.push(cell_key(nb))
            },
        ensures
            self.wf(),
    {
        let e0 = pre.entities@;
        let e1 = self.entities@;
        let g0 = pre.grid@;
        let g1 = self.grid@;
        let ok = cell_key(e0[id]);
        let nk = cell_key(nb);
        let ob0 = g0[ok]@;
        ob0.remove_ensures(p);
        assert(g1[nk]@[nb0.len() as int] == id);
        // a member of the old cell's bucket other than at `p` is not `id`
        assert forall|w: int| 0 <= w < ob0.len() && w != p implies ob0[w] != id by {
            if w < p {
                assert(ob0[w] != ob0[p]);
            } else {
                assert(ob0[p] != ob0[w]);
            }
        }
        // a member of the new cell's old bucket is not `id`
        assert forall|w: int| 0 <= w < nb0.len() implies nb0[w] != id by {
            if had_bucket {
                assert(e0.contains_key(nb0[w]));
                assert(cell_key(e0[nb0[w]]) == nk);
            }
        }
        assert forall|id2: Id| #[trigger] e1.contains_key(id2) implies (placeable(
            e1[id2],
            self.width,
            self.height,
        ) && g1.contains_key(cell_key(e1[id2])) && g1[cell_key(e1[id2])]@.contains(id2)) by {
            if id2 == id {
                assert(g1[nk]@.contains(id));
            } else {
                assert(e0.contains_key(id2));
                let k2 = cell_key(e0[id2]);
                assert(g0[k2]@.contains(id2));
                let w = choose|w: int| 0 <= w < g0[k2]@.len() && g0[k2]@[w] == id2;
                if k2 == ok {
                    if w < p {
                        assert(g1[ok]@[w] == id2);
                    } else {
                        assert(g0[ok]@[w] != id);
                        assert(w != p);
                        assert(g1[ok]@[w - 1] == id2);
                    }
                } else if k2 == nk {
                    assert(g1[nk]@[w] == id2);
                } else {
                    assert(g1[k2] == g0[k2]);
                }
            }
        }
        assert forall|k2: u64, i: int|
            #![trigger self.grid@[k2]@[i]]
            g1.contains_key(k2) && 0 <= i < g1[k2]@.len() implies (e1.contains_key(g1[k2]@[i])
            && cell_key(e1[g1[k2]@[i]]) == k2) by {
            if k2 == ok {
                let w: int = if i < p {
                    i
                } else {
                    i + 1
                };
                assert(g1[ok]@[i] == ob0[w]);
                assert(e0.contains_key(ob0[w]));
                assert(ob0[w] != id);
            } else if k2 == nk {
                if i < nb0.len() {
                    assert(g1[nk]@[i] == nb0[i]);
                    assert(e0.contains_key(nb0[i]));
                } else {
                    assert(g1[nk]@[i] == id);
                }
            } else {
                assert(g1[k2] == g0[k2]);
                assert(e0.contains_key(g0[k2]@[i]));
            }
        }
        assert forall|k2: u64, i: int, j: int|
            #![trigger self.grid@[k2]@[i], self.grid@[k2]@[j]]
            g1.contains_key(k2) && 0 <= i < j < g1[k2]@.len() implies g1[k2]@[i] != g1[k2]@[j] by {
            if k2 == ok {
                let wi: int = if i < p {
                    i
                } else {
                    i + 1
                };
                let wj: int = if j < p {
                    j
                } else {
                    j + 1
                };
                assert(g1[ok]@[i] == ob0[wi]);
                assert(g1[ok]@[j] == ob0[wj]);
                assert(ob0[wi] != ob0[wj]);
            } else if k2 == nk {
                assert(g1[nk]@[i] == nb0[i]);
                if j < nb0.len() {
                    assert(g1[nk]@[j] == nb0[j]);
                    if had_bucket {
                        assert(g0[nk]@[i] != g0[nk]@[j]);
                    }
                } else {
                    assert(g1[nk]@[j] == id);
                }
            } else {
                assert(g1[k2] == g0[k2]);
            }
        }
        assert forall|k2: u64| g1.contains_key(k2) <==> #[trigger] self.cells@.contains(k2) by {
            if had_bucket {
                assert(g1.contains_key(k2) == g0.contains_key(k2));
            } else {
                if k2 == nk {
                    assert(self.cells@[pre.cells@.len() as int] == nk);
                    assert(self.cells@.contains(nk));
                } else {
                    if pre.cells@.contains(k2) {
                        let w = choose|w: int| 0 <= w < pre.cells@.len() && pre.cells@[w] == k2;
                        assert(self.cells@[w] == k2);
                    }
                    if self.cells@.contains(k2) {
                        let w = choose|w: int| 0 <= w < self.cells@.len() && self.cells@[w] == k2;
                        assert(w < pre.cells@.len());
                        assert(pre.cells@[w] == k2);
                    }
                }
            }
        }
        assert forall|i: int, j: int|
            #![trigger self.cells@[i], self.cells@[j]]
            0 <= i < j < self.cells@.len() implies self.cells@[i] != self.cells@[j] by {
            if !had_bucket && j == pre.cells@.len() {
                assert(self.cells@[i] == pre.cells@[i]);
                assert(pre.cells@.contains(pre.cells@[i]));
                assert(pre.grid@.contains_key(pre.cells@[i]));
            }
        }
    }
}

/// Position of `id` in the bucket; callable only when it is known to be a
/// member.
fn index_of_id(bucket: &Vec<Id>, id: Id) -> (pos: usize)
    requires
        bucket@.contains(id),
    ensures
        0 <= pos < bucket@.len(),
        bucket@[pos as int] == id,
{
    let mut i: usize = 0;
    while i < bucket.len()
        invariant
            0 <= i <= bucket@.len(),
            bucket@.contains(id),
            forall|j: int| 0 <= j < i ==> bucket@[j] != id,
        decreases bucket@.len() - i,
    {
        if bucket[i] == id {
            return i;
        }
        i = i + 1;
    }
    proof {
        let w = choose|w: int| 0 <= w < bucket@.len() && bucket@[w] == id;
        assert(bucket@[w] != id);
    }
    unreached()
}

/// Cells at most one apart on each axis.
pub open spec fn cells_adjacent(a: Bounds, b: Bounds) -> bool {
    &&& -1 <= cell_index(a.x as int) - cell_index(b.x as int) <= 1
    &&& -1 <= cell_index(a.y as int) - cell_index(b.y as int) <= 1
}

/// Coordinates at most 99 apart (and not far left of the origin) fall in
/// the same or in adjacent grid columns.
proof fn lemma_cell_index_close(x1: int, x2: int)
    requires
        -99 <= x1 <= i32::MAX,
        -99 <= x2 <= i32::MAX,
        -99 <= x1 - x2 <= 99,
    ensures
        -1 <= cell_index(x1) - cell_index(x2) <= 1,
{
    if x1 >= 0 && x2 >= 0 {
        lemma_fundamental_div_mod(x1, 100);
        lemma_fundamental_div_mod(x2, 100);
        lemma_mod_division_less_than_divisor(x1, 100);
        lemma_mod_division_less_than_divisor(x2, 100);
    } else if x1 < 0 && x2 >= 0 {
        lemma_basic_div(x2, 100);
    } else if x2 < 0 && x1 >= 0 {
        lemma_basic_div(x1, 100);
    }
}

/// Two overlapping cell-sized rectangles sit in the same or in adjacent
/// cells; this is what licenses scanning only a bucket and its neighbors.
proof fn lemma_overlap_adjacent(a: Bounds, b: Bounds)
    requires
        cell_sized(a),
        cell_sized(b),
        a.spec_intersects(b),
    ensures
        cells_adjacent(a, b),
{
    lemma_half_in_range(a.width as int);
    lemma_half_in_range(a.height as int);
    lemma_half_in_range(b.width as int);
    lemma_half_in_range(b.height as int);
    lemma_cell_index_close(a.x as int, b.x as int);
    lemma_cell_index_close(a.y as int, b.y as int);
}

/// A cell-sized rectangle containing another (with non-negative extents)
/// sits in the same or in an adjacent cell.
proof fn lemma_contains_adjacent(outer: Bounds, inner: Bounds)
    requires
        cell_sized(outer),
        inner.width >= 0,
        inner.height >= 0,
        outer.spec_contains(inner),
    ensures
        cells_adjacent(outer, inner),
{
    lemma_half_in_range(outer.width as int);
    lemma_half_in_range(outer.height as int);
    assert(half(inner.width as int) >= 0);
    assert(half(inner.height as int) >= 0);
    lemma_cell_index_close(outer.x as int, inner.x as int);
    lemma_cell_index_close(outer.y as int, inner.y as int);
}

/// For extents between 0 and one cell, the half extent lies between 0 and
/// half a cell.
proof fn lemma_half_in_range(w: int)
    requires
        0 <= w <= CELL_SIZE as int,
    ensures
        0 <= half(w) <= (CELL_SIZE as int) / 2,
{
    lemma_div_is_ordered(0, w, 2);
    lemma_div_is_ordered(w, CELL_SIZE as int, 2);
}

/// Horizontal cell offset of scan step `j`.
spec fn off_x(j: int) -> int {
    j / 3 - 1
}

/// Vertical cell offset of scan step `j`.
spec fn off_y(j: int) -> int {
    j % 3 - 1
}

/// The entity rectangle `eb` lies exactly at scan offset `j` from the
/// probe rectangle `b`.
spec fn at_offset(eb: Bounds, b: Bounds, j: int) -> bool {
    &&& cell_index(eb.x as int) == cell_index(b.x as int) + off_x(j)
    &&& cell_index(eb.y as int) == cell_index(b.y as int) + off_y(j)
}

/// Every pair of adjacent-cell offsets is reached by some scan step.
proof fn lemma_offset_complete(ddx: int, ddy: int) -> (j: int)
    requires
        -1 <= ddx <= 1,
        -1 <= ddy <= 1,
    ensures
        0 <= j < 9,
        off_x(j) == ddx,
        off_y(j) == ddy,
{
    let j = (ddx + 1) * 3 + (ddy + 1);
    assert(j / 3 == ddx + 1 && j % 3 == ddy + 1) by (nonlinear_arith)
        requires
            -1 <= ddx <= 1 && -1 <= ddy <= 1 && j == (ddx + 1) * 3 + (ddy + 1),
    ;
    j
}

/// Distinct scan steps stand for distinct offsets.
proof fn lemma_offset_injective(j1: int, j2: int)
    requires
        0 <= j1 < 9,
        0 <= j2 < 9,
        off_x(j1) == off_x(j2),
        off_y(j1) == off_y(j2),
    ensures
        j1 == j2,
{
    lemma_fundamental_div_mod(j1, 3);
    lemma_fundamental_div_mod(j2, 3);
}

/// Scan offsets stay within one cell of the probe.
proof fn lemma_offset_in_range(j: int)
    requires
        0 <= j < 9,
    ensures
        -1 <= off_x(j) <= 1,
        -1 <= off_y(j) <= 1,
{
    lemma_div_is_ordered(0, j, 3);
    lemma_div_is_ordered(j, 8, 3);
    lemma_mod_division_less_than_divisor(j, 3);
}

/// The scan step at which the cell of `eb` is visited when scanning the
/// neighborhood of `b`'s cell; meaningful only for adjacent cells.
spec fn offset_rank(eb: Bounds, b: Bounds) -> int {
    (cell_index(eb.x as int) - cell_index(b.x as int) + 1) * 3 + (cell_index(eb.y as int)
        - cell_index(b.y as int) + 1)
}

/// A rectangle found at scan step `j` is in an adjacent cell, and `j` is
/// its rank.
proof fn lemma_rank_of_offset(eb: Bounds, b: Bounds, j: int)
    requires
        0 <= j < 9,
        at_offset(eb, b, j),
    ensures
        cells_adjacent(eb, b),
        offset_rank(eb, b) == j,
{
    lemma_offset_in_range(j);
    lemma_fundamental_div_mod(j, 3);
}

/// A rectangle in an adjacent cell is visited at the scan step of its
/// rank.
proof fn lemma_offset_of_rank(eb: Bounds, b: Bounds)
    requires
        cells_adjacent(eb, b),
    ensures
        0 <= offset_rank(eb, b) < 9,
        at_offset(eb, b, offset_rank(eb, b)),
{
    let ddx = cell_index(eb.x as int) - cell_index(b.x as int);
    let ddy = cell_index(eb.y as int) - cell_index(b.y as int);
    let j = offset_rank(eb, b);
    assert(j / 3 == ddx + 1 && j % 3 == ddy + 1) by (nonlinear_arith)
        requires
            -1 <= ddx <= 1 && -1 <= ddy <= 1 && j == (ddx + 1) * 3 + (ddy + 1),
    ;
}

impl World {
    /// Every entity bucketed in the probe's cell or one of its eight
    /// neighbors, each exactly once, with its current bounds.
    #[verifier::rlimit(100)]
    fn query_cells(&self, b: &Bounds) -> (r: Vec<CollisionObject>)
        requires
            self.wf(),
        ensures
            forall|i: int|
                #![trigger r@[i]]
                0 <= i < r@.len() ==> (self@.contains_key(r@[i].id) && r@[i].bounds
                    == self@[r@[i].id] && cells_adjacent(r@[i].bounds, *b)),
            forall|i: int, j: int| 0 <= i < j < r@.len() ==> r@[i].id != r@[j].id,
            forall|id: Id|
                self@.contains_key(id) && cells_adjacent(#[trigger] self@[id], *b) ==> exists|i: int|
                    0 <= i < r@.len() && r@[i].id == id,
    {
        let cx = cell_coord(b.x);
        let cy = cell_coord(b.y);
        let mut r: Vec<CollisionObject> = Vec::new();
        let mut k: usize = 0;
        while k < 9
            invariant
                self.wf(),
                cx == cell_index(b.x as int),
                cy == cell_index(b.y as int),
                0 <= k <= 9,
                forall|l: int|
                    #![trigger r@[l]]
                    0 <= l < r@.len() ==> (self@.contains_key(r@[l].id) && r@[l].bounds
                        == self@[r@[l].id] && cells_adjacent(self@[r@[l].id], *b) && offset_rank(
                        self@[r@[l].id],
                        *b,
                    ) < k),
                forall|l: int, m: int| 0 <= l < m < r@.len() ==> r@[l].id != r@[m].id,
                forall|id: Id|
                    self@.contains_key(id) && cells_adjacent(#[trigger] self@[id], *b)
                        && offset_rank(self@[id], *b) < k ==> exists|l: int|
                        0 <= l < r@.len() && r@[l].id == id,
            decreases 9 - k,
        {
            let ghost k0: int = k as int;
            let ghost r_pre: Seq<CollisionObject> = r@;
            let dx = k / 3;
            let dy = k % 3;
            let tx: i64 = cx as i64 + dx as i64 - 1;
            let ty: i64 = cy as i64 + dy as i64 - 1;
            proof {
                assert(self@ == self.entities@);
                assert(tx == cell_index(b.x as int) + off_x(k0));
                assert(ty == cell_index(b.y as int) + off_y(k0));
            }
            if tx >= 0 && ty >= 0 {
                let key: u64 = (tx as u64) * 0x1_0000_0000u64 + (ty as u64);
                proof {
                    assert(key == cell_key_at(tx as int, ty as int));
                }
                let bucket_opt = self.grid.get(&key);
                match bucket_opt {
                    Some(bucket) => {
                        let mut i: usize = 0;
                        while i < bucket.len()
                            invariant
                                self.wf(),
                                self@ == self.entities@,
                                0 <= k0 < 9,
                                tx == cell_index(b.x as int) + off_x(k0),
                                ty == cell_index(b.y as int) + off_y(k0),
                                0 <= tx < 0x1_0000_0000,
                                0 <= ty < 0x1_0000_0000,
                                key == cell_key_at(tx as int, ty as int),
                                self.grid@.contains_key(key),
                                bucket == self.grid@[key],
                                0 <= i <= bucket@.len(),
                                r@.len() == r_pre.len() + i,
                                forall|l: int|
                                    #![trigger r_pre[l]]
                                    0 <= l < r_pre.len() ==> (self@.contains_key(r_pre[l].id)
                                        && r_pre[l].bounds == self@[r_pre[l].id] && cells_adjacent(
                                        self@[r_pre[l].id],
                                        *b,
                                    ) && offset_rank(self@[r_pre[l].id], *b) < k0),
                                forall|l: int|
                                    #![trigger r@[l]]
                                    0 <= l < r_pre.len() ==> r@[l] == r_pre[l],
                                forall|l: int|
                                    #![trigger r@[l]]
                                    r_pre.len() <= l < r@.len() ==> (r@[l].id == bucket@[l
                                        - r_pre.len()] && self@.contains_key(r@[l].id)
                                        && r@[l].bounds == self@[r@[l].id]),
                                forall|l: int, m: int| 0 <= l < m < r@.len() ==> r@[l].id
                                    != r@[m].id,
                            decreases bucket@.len() - i,
                        {
                            let id = bucket[i];
                            let ghost r0: Seq<CollisionObject> = r@;
                            proof {
                                assert(self.grid@[key]@[i as int] == id);
                                assert(self.entities@.contains_key(id));
                                assert(cell_key(self.entities@[id]) == key);
                                lemma_cell_index_bounds(self.entities@[id].x as int);
                                lemma_cell_index_bounds(self.entities@[id].y as int);
                                lemma_cell_key_at_injective(
                                    cell_index(self.entities@[id].x as int),
                                    cell_index(self.entities@[id].y as int),
                                    tx as int,
                                    ty as int,
                                );
                                assert(at_offset(self@[id], *b, k0));
                                lemma_rank_of_offset(self@[id], *b, k0);
                            }
                            let bounds = *self.entities.get(&id).unwrap();
                            r.push(CollisionObject { id, bounds });
                            i = i + 1;
                            proof {
                                let obj = CollisionObject { id, bounds };
                                assert(r@ == r0.push(obj));
                                assert(r@[r@.len() - 1] == obj);
                                assert forall|l: int| #![trigger r@[l]] 0 <= l < r_pre.len() implies r@[l]
                                    == r_pre[l] by {
                                    assert(r@[l] == r0[l]);
                                }
                                assert forall|l: int|
                                    #![trigger r@[l]]
                                    r_pre.len() <= l < r@.len() implies (r@[l].id == bucket@[l
                                    - r_pre.len()] && self@.contains_key(r@[l].id) && r@[l].bounds
                                    == self@[r@[l].id]) by {
                                    if l < r@.len() - 1 {
                                        assert(r@[l] == r0[l]);
                                        let x = r0[l];
                                    } else {
                                        assert(r@[l] == obj);
                                    }
                                }
                                assert forall|l: int, m: int| 0 <= l < m < r@.len() implies r@[l].id
                                    != r@[m].id by {
                                    if m < r@.len() - 1 {
                                        assert(r@[l] == r0[l] && r@[m] == r0[m]);
                                    } else {
                                        assert(r@[m] == obj);
                                        assert(r@[l] == r0[l]);
                                        if l < r_pre.len() {
                                            assert(r0[l] == r_pre[l]);
                                            let x = r_pre[l];
                                            if r_pre[l].id == id {
                                                assert(offset_rank(self@[id], *b) < k0);
                                                assert(offset_rank(self@[id], *b) == k0);
                                            }
                                        } else {
                                            assert(r0[l].id == bucket@[l - r_pre.len()]);
                                            assert(self.grid@[key]@[l - r_pre.len()]
                                                != self.grid@[key]@[i - 1]);
                                        }
                                    }
                                }
                            }
                        }
                    },
                    None => {
                        proof {
                            assert forall|id: Id|
                                self@.contains_key(id) && at_offset(
                                    #[trigger] self@[id],
                                    *b,
                                    k0,
                                ) implies false by {
                                lemma_cell_index_bounds(self.entities@[id].x as int);
                                lemma_cell_index_bounds(self.entities@[id].y as int);
                                assert(cell_key(self.entities@[id]) == key);
                                assert(self.grid@.contains_key(key));
                            }
                        }
                    },
                }
            } else {
                proof {
                    assert forall|id: Id|
                        self@.contains_key(id) && at_offset(
                            #[trigger] self@[id],
                            *b,
                            k0,
                        ) implies false by {
                        lemma_cell_index_bounds(self.entities@[id].x as int);
                        lemma_cell_index_bounds(self.entities@[id].y as int);
                    }
                }
            }
            k = k + 1;
            proof {
                assert forall|l: int| #![trigger r@[l]] 0 <= l < r@.len() implies (self@.contains_key(
                    r@[l].id,
                ) && r@[l].bounds == self@[r@[l].id] && cells_adjacent(self@[r@[l].id], *b)
                    && offset_rank(self@[r@[l].id], *b) < k) by {
                    let x = r@[l];
                    if l < r_pre.len() {
                        assert(r@[l] == r_pre[l]);
                        let y = r_pre[l];
                    } else {
                        assert(at_offset(self@[r@[l].id], *b, k0));
                        lemma_rank_of_offset(self@[r@[l].id], *b, k0);
                    }
                }
                assert forall|l: int, m: int| 0 <= l < m < r@.len() implies r@[l].id != r@[m].id by {
                    let x = r@[l];
                    let y = r@[m];
                }
                assert forall|id: Id|
                    self@.contains_key(id) && cells_adjacent(#[trigger] self@[id], *b)
                        && offset_rank(self@[id], *b) < k implies exists|l: int|
                    0 <= l < r@.len() && r@[l].id == id by {
                    if offset_rank(self@[id], *b) < k0 {
                        let l = choose|l: int| 0 <= l < r_pre.len() && r_pre[l].id == id;
                        assert(r@[l] == r_pre[l]);
                        assert(0 <= l < r@.len() && r@[l].id == id);
                    } else {
                        lemma_offset_of_rank(self@[id], *b);
                        assert(at_offset(self@[id], *b, k0));
                        lemma_cell_index_bounds(self.entities@[id].x as int);
                        lemma_cell_index_bounds(self.entities@[id].y as int);
                        assert(cell_key(self.entities@[id]) == cell_key_at(
                            cell_index(self.entities@[id].x as int),
                            cell_index(self.entities@[id].y as int),
                        ));
                        assert(self.grid@.contains_key(cell_key(self.entities@[id])));
                        let bkt = self.grid@[cell_key(self.entities@[id])]@;
                        assert(bkt.contains(id));
                        let w = choose|w: int| 0 <= w < bkt.len() && bkt[w] == id;
                        assert(r@[r_pre.len() + w].id == id);
                    }
                }
            }
        }
        proof {
            assert forall|id: Id|
                self@.contains_key(id) && cells_adjacent(#[trigger] self@[id], *b) implies exists|
                i: int,
            | 0 <= i < r@.len() && r@[i].id == id by {
                lemma_offset_of_rank(self@[id], *b);
            }
            assert forall|i: int| #![trigger r@[i]] 0 <= i < r@.len() implies (self@.contains_key(
                r@[i].id,
            ) && r@[i].bounds == self@[r@[i].id] && cells_adjacent(r@[i].bounds, *b)) by {
                let x = r@[i];
            }
        }
        r
    }

    /// Every entity whose bounds strictly overlap the probe rectangle,
    /// each exactly once, in scan order, with its current bounds.  The
    /// scan looks only at the probe's bucket and the eight around it,
    /// which is exhaustive for any [`cell_sized`] probe.
    #[verifier::rlimit(100)]
    pub fn query_intersects_other(&self, bounds: &Bounds) -> (r: Vec<CollisionObject>)
        requires
            self.wf(),
        ensures
            forall|i: int|
                #![trigger r@[i]]
                0 <= i < r@.len() ==> (self@.contains_key(r@[i].id) && r@[i].bounds
                    == self@[r@[i].id] && bounds.spec_intersects(r@[i].bounds)),
            forall|i: int, j: int| 0 <= i < j < r@.len() ==> r@[i].id != r@[j].id,
            cell_sized(*bounds) ==> forall|id: Id|
                self@.contains_key(id) && bounds.spec_intersects(#[trigger] self@[id])
                    ==> exists|i: int| 0 <= i < r@.len() && r@[i].id == id,
    {
        let b0: Bounds = *bounds;
        let ghost p: spec_fn(CollisionObject) -> bool = |o: CollisionObject|
            b0.spec_intersects(o.bounds);
        let cand = self.query_cells(bounds);
        let mut r: Vec<CollisionObject> = Vec::new();
        let mut i: usize = 0;
        while i < cand.len()
            invariant
                0 <= i <= cand@.len(),
                b0 == *bounds,
                forall|o: CollisionObject| #[trigger] p(o) == b0.spec_intersects(o.bounds),
                r@ == cand@.subrange(0, i as int).filter(p),
            decreases cand@.len() - i,
        {
            let other = cand[i];
            proof {
                assert(cand@.subrange(0, i as int + 1) =~= cand@.subrange(0, i as int).push(
                    cand@[i as int],
                ));
                cand@.subrange(0, i as int).lemma_filter_push(cand@[i as int], p);
                assert(p(cand@[i as int]) == b0.spec_intersects(other.bounds));
            }
            if bounds.intersects(&other.bounds) {
                r.push(other);
            }
            i = i + 1;
        }
        proof {
            assert(cand@.subrange(0, cand@.len() as int) =~= cand@);
            self.lemma_filtered_listing(bounds, cand@, r@, p);
            if cell_sized(*bounds) {
                assert forall|id: Id|
                    self@.contains_key(id) && bounds.spec_intersects(
                        #[trigger] self@[id],
                    ) implies exists|l: int| 0 <= l < r@.len() && r@[l].id == id by {
                    assert(self@ == self.entities@);
                    assert(self.entities@.contains_key(id));
                    lemma_intersects_symmetric(*bounds, self@[id]);
                    lemma_overlap_adjacent(self@[id], *bounds);
                    let c = choose|c: int| 0 <= c < cand@.len() && cand@[c].id == id;
                    assert(cand@[c].bounds == self@[id]);
                    assert(p(cand@[c]));
                    assert(cand@.contains(cand@[c]));
                    cand@.lemma_filter_contains(p, c);
                    let fp = cand@.filter(p);
                    assert(fp.contains(cand@[c]));
                    let w = choose|w: int| 0 <= w < fp.len() && fp[w] == cand@[c];
                    assert(r@[w].id == id);
                }
            }
        }
        r
    }

    /// Every *other* entity whose bounds strictly overlap the bounds of
    /// the given entity, each exactly once, in scan order.  Exhaustive,
    /// since every stored rectangle is [`cell_sized`].
    #[verifier::rlimit(100)]
    pub fn query_intersects_id(&self, id: &Id) -> (r: Vec<CollisionObject>)
        requires
            self.wf(),
            self@.contains_key(*id),
        ensures
            forall|i: int|
                #![trigger r@[i]]
                0 <= i < r@.len() ==> (self@.contains_key(r@[i].id) && r@[i].id != *id
                    && r@[i].bounds == self@[r@[i].id] && self@[*id].spec_intersects(
                    r@[i].bounds,
                )),
            forall|i: int, j: int| 0 <= i < j < r@.len() ==> r@[i].id != r@[j].id,
            forall|id2: Id|
                self@.contains_key(id2) && id2 != *id && self@[*id].spec_intersects(
                    #[trigger] self@[id2],
                ) ==> exists|i: int| 0 <= i < r@.len() && r@[i].id == id2,
    {
        let own: Id = *id;
        let b0: Bounds = *self.entities.get(id).unwrap();
        let ghost p: spec_fn(CollisionObject) -> bool = |o: CollisionObject|
            o.id != own && b0.spec_intersects(o.bounds);
        let cand = self.query_cells(&b0);
        let mut r: Vec<CollisionObject> = Vec::new();
        let mut i: usize = 0;
        while i < cand.len()
            invariant
                0 <= i <= cand@.len(),
                forall|o: CollisionObject| #[trigger] p(o) == (o.id != own && b0.spec_intersects(
                    o.bounds,
                )),
                r@ == cand@.subrange(0, i as int).filter(p),
            decreases cand@.len() - i,
        {
            let other = cand[i];
            proof {
                assert(cand@.subrange(0, i as int + 1) =~= cand@.subrange(0, i as int).push(
                    cand@[i as int],
                ));
                cand@.subrange(0, i as int).lemma_filter_push(cand@[i as int], p);
                assert(p(cand@[i as int]) == (other.id != own && b0.spec_intersects(
                    other.bounds,
                )));
            }
            if other.id != own && b0.intersects(&other.bounds) {
                r.push(other);
            }
            i = i + 1;
        }
        proof {
            assert(cand@.subrange(0, cand@.len() as int) =~= cand@);
            self.lemma_filtered_listing(&b0, cand@, r@, p);
            assert(b0 == self@[*id]);
            assert forall|id2: Id|
                self@.contains_key(id2) && id2 != *id && self@[*id].spec_intersects(
                    #[trigger] self@[id2],
                ) implies exists|l: int| 0 <= l < r@.len() && r@[l].id == id2 by {
                assert(self@ == self.entities@);
                assert(self.entities@.contains_key(id2));
                assert(self.entities@.contains_key(*id));
                lemma_intersects_symmetric(b0, self@[id2]);
                lemma_overlap_adjacent(self@[id2], b0);
                let c = choose|c: int| 0 <= c < cand@.len() && cand@[c].id == id2;
                assert(cand@[c].bounds == self@[id2]);
                assert(p(cand@[c]));
                assert(cand@.contains(cand@[c]));
                cand@.lemma_filter_contains(p, c);
                let fp = cand@.filter(p);
                assert(fp.contains(cand@[c]));
                let w = choose|w: int| 0 <= w < fp.len() && fp[w] == cand@[c];
                assert(r@[w].id == id2);
            }
        }
        r
    }

    /// Every entity whose bounds contain the probe rectangle, each
    /// exactly once, in scan order.  Exhaustive for probes with
    /// non-negative extents.
    #[verifier::rlimit(100)]
    pub fn query_contains_other(&self, bounds: &Bounds) -> (r: Vec<CollisionObject>)
        requires
            self.wf(),
        ensures
            forall|i: int|
                #![trigger r@[i]]
                0 <= i < r@.len() ==> (self@.contains_key(r@[i].id) && r@[i].bounds
                    == self@[r@[i].id] && r@[i].bounds.spec_contains(*bounds)),
            forall|i: int, j: int| 0 <= i < j < r@.len() ==> r@[i].id != r@[j].id,
            bounds.width >= 0 && bounds.height >= 0 ==> forall|id: Id|
                self@.contains_key(id) && (#[trigger] self@[id]).spec_contains(*bounds)
                    ==> exists|i: int| 0 <= i < r@.len() && r@[i].id == id,
    {
        let b0: Bounds = *bounds;
        let ghost p: spec_fn(CollisionObject) -> bool = |o: CollisionObject|
            o.bounds.spec_contains(b0);
        let cand = self.query_cells(bounds);
        let mut r: Vec<CollisionObject> = Vec::new();
        let mut i: usize = 0;
        while i < cand.len()
            invariant
                0 <= i <= cand@.len(),
                b0 == *bounds,
                forall|o: CollisionObject| #[trigger] p(o) == o.bounds.spec_contains(b0),
                r@ == cand@.subrange(0, i as int).filter(p),
            decreases cand@.len() - i,
        {
            let other = cand[i];
            proof {
                assert(cand@.subrange(0, i as int + 1) =~= cand@.subrange(0, i as int).push(
                    cand@[i as int],
                ));
                cand@.subrange(0, i as int).lemma_filter_push(cand@[i as int], p);
                assert(p(cand@[i as int]) == other.bounds.spec_contains(b0));
            }
            if other.bounds.contains(bounds) {
                r.push(other);
            }
            i = i + 1;
        }
        proof {
            assert(cand@.subrange(0, cand@.len() as int) =~= cand@);
            self.lemma_filtered_listing(bounds, cand@, r@, p);
            if bounds.width >= 0 && bounds.height >= 0 {
                assert forall|id: Id|
                    self@.contains_key(id) && (#[trigger] self@[id]).spec_contains(
                        *bounds,
                    ) implies exists|l: int| 0 <= l < r@.len() && r@[l].id == id by {
                    assert(self@ == self.entities@);
                    assert(self.entities@.contains_key(id));
                    lemma_contains_adjacent(self@[id], *bounds);
                    let c = choose|c: int| 0 <= c < cand@.len() && cand@[c].id == id;
                    assert(cand@[c].bounds == self@[id]);
                    assert(p(cand@[c]));
                    assert(cand@.contains(cand@[c]));
                    cand@.lemma_filter_contains(p, c);
                    let fp = cand@.filter(p);
                    assert(fp.contains(cand@[c]));
                    let w = choose|w: int| 0 <= w < fp.len() && fp[w] == cand@[c];
                    assert(r@[w].id == id);
                }
            }
        }
        r
    }

    /// What filtering the neighborhood listing guarantees: entries keep
    /// their listed facts, satisfy the predicate and stay pairwise
    /// distinct.
    proof fn lemma_filtered_listing(
        &self,
        b: &Bounds,
        cand: Seq<CollisionObject>,
        r: Seq<CollisionObject>,
        p: spec_fn(CollisionObject) -> bool,
    )
        requires
            forall|i: int|
                #![trigger cand[i]]
                0 <= i < cand.len() ==> (self@.contains_key(cand[i].id) && cand[i].bounds
                    == self@[cand[i].id] && cells_adjacent(cand[i].bounds, *b)),
            forall|i: int, j: int| 0 <= i < j < cand.len() ==> cand[i].id != cand[j].id,
            r == cand.filter(p),
        ensures
            forall|i: int|
                #![trigger r[i]]
                0 <= i < r.len() ==> (self@.contains_key(r[i].id) && r[i].bounds == self@[r[i].id]
                    && p(r[i])),
            forall|i: int, j: int| 0 <= i < j < r.len() ==> r[i].id != r[j].id,
    {
        lemma_filter_distinct_ids(cand, p);
        assert forall|i: int| #![trigger r[i]] 0 <= i < r.len() implies (self@.contains_key(r[i].id)
            && r[i].bounds == self@[r[i].id] && p(r[i])) by {
            let x = r[i];
            assert(cand.filter(p)[i] == x);
            assert(p(cand.filter(p)[i]));
            assert(r.contains(x));
            cand.lemma_filter_contains_rev(p, x);
            let c = choose|c: int| 0 <= c < cand.len() && cand[c] == x;
            assert(cand[c] == x);
        }
        assert forall|i: int, j: int| 0 <= i < j < r.len() implies r[i].id != r[j].id by {
            assert(cand.filter(p)[i].id != cand.filter(p)[j].id);
        }
    }
}

/// Whether the listed pair couples exactly the two given ids, in either
/// order.
pub open spec fn spec_pair_matches(p: (CollisionObject, CollisionObject), a: Id, b: Id) -> bool {
    (p.0.id == a && p.1.id == b) || (p.0.id == b && p.1.id == a)
}

/// Whether the two ids are coupled somewhere in the listing.
pub open spec fn spec_pair_listed(r: Seq<(CollisionObject, CollisionObject)>, a: Id, b: Id) -> bool {
    exists|l: int| 0 <= l < r.len() && spec_pair_matches(#[trigger] r[l], a, b)
}

/// The half of the eight neighbor offsets that the pairwise scan couples
/// directly; the opposite half is reached from the other cell's side.
pub open spec fn in_half(ddx: int, ddy: int) -> bool {
    ||| (ddx == 0 && ddy == -1)
    ||| (ddx == -1 && ddy == -1)
    ||| (ddx == -1 && ddy == 0)
    ||| (ddx == -1 && ddy == 1)
}

/// The key of the cell whose scan couples the two entities: their common
/// cell, or whichever of the two sees the other in its scanned half.
pub open spec fn owner_key(m: Map<Id, Bounds>, a: Id, b: Id) -> u64 {
    if cell_key(m[b]) == cell_key(m[a]) {
        cell_key(m[a])
    } else if in_half(
        cell_index(m[b].x as int) - cell_index(m[a].x as int),
        cell_index(m[b].y as int) - cell_index(m[a].y as int),
    ) {
        cell_key(m[a])
    } else {
        cell_key(m[b])
    }
}

/// Horizontal cell offset of half-scan step `h`.
spec fn half_off_x(h: int) -> int {
    if h == 0 {
        0
    } else {
        -1
    }
}

/// Vertical cell offset of half-scan step `h`.
spec fn half_off_y(h: int) -> int {
    if h == 0 {
        -1
    } else if h == 1 {
        -1
    } else if h == 2 {
        0
    } else {
        1
    }
}

/// A bucket key decodes back into the cell coordinates it was packed
/// from.
proof fn lemma_cell_key_decode(cx: int, cy: int)
    requires
        0 <= cx < 0x1_0000_0000,
        0 <= cy < 0x1_0000_0000,
    ensures
        (cell_key_at(cx, cy) as int) / 0x1_0000_0000 == cx,
        (cell_key_at(cx, cy) as int) % 0x1_0000_0000 == cy,
{
    assert((cx * 0x1_0000_0000 + cy) / 0x1_0000_0000 == cx && (cx * 0x1_0000_0000 + cy)
        % 0x1_0000_0000 == cy) by (nonlinear_arith)
        requires
            0 <= cx < 0x1_0000_0000 && 0 <= cy < 0x1_0000_0000,
    ;
}

/// Whether the two given ids are already coupled somewhere in the listing.
fn pair_listed_in(r: &Vec<(CollisionObject, CollisionObject)>, a: Id, b: Id) -> (res: bool)
    ensures
        res == spec_pair_listed(r@, a, b),
{
    let mut l: usize = 0;
    while l < r.len()
        invariant
            0 <= l <= r@.len(),
            forall|w: int| 0 <= w < l ==> !spec_pair_matches(#[trigger] r@[w], a, b),
        decreases r@.len() - l,
    {
        let p = r[l];
        if (p.0.id == a && p.1.id == b) || (p.0.id == b && p.1.id == a) {
            return true;
        }
        l = l + 1;
    }
    false
}

impl World {
    /// Report every unordered pair of distinct entities whose bounds
    /// strictly overlap: each such pair exactly once, and nothing else.
    /// Each bucket is paired with itself and with a one-directional half
    /// of its eight neighbors, so no pair is ever visited from both
    /// sides.
    #[verifier::rlimit(100)]
    pub fn query_intersects(&self) -> (r: Vec<(CollisionObject, CollisionObject)>)
        requires
            self.wf(),
        ensures
            forall|l: int|
                #![trigger r@[l]]
                0 <= l < r@.len() ==> (self@.contains_key(r@[l].0.id) && self@.contains_key(
                    r@[l].1.id,
                ) && r@[l].0.id != r@[l].1.id && r@[l].0.bounds == self@[r@[l].0.id]
                    && r@[l].1.bounds == self@[r@[l].1.id] && r@[l].0.bounds.spec_intersects(
                    r@[l].1.bounds,
                )),
            forall|l: int, m: int|
                0 <= l < m < r@.len() ==> !spec_pair_matches(r@[l], r@[m].0.id, r@[m].1.id),
            forall|a: Id, b: Id|
                self@.contains_key(a) && self@.contains_key(b) && a != b && (
                #[trigger] self@[a]).spec_intersects(#[trigger] self@[b]) ==> spec_pair_listed(
                    r@,
                    a,
                    b,
                ),
    {
        let mut r: Vec<(CollisionObject, CollisionObject)> = Vec::new();
        let mut t: usize = 0;
        while t < self.cells.len()
            invariant
                self.wf(),
                0 <= t <= self.cells@.len(),
                forall|l: int|
                    #![trigger r@[l]]
                    0 <= l < r@.len() ==> (self@.contains_key(r@[l].0.id) && self@.contains_key(
                        r@[l].1.id,
                    ) && r@[l].0.id != r@[l].1.id && r@[l].0.bounds == self@[r@[l].0.id]
                        && r@[l].1.bounds == self@[r@[l].1.id] && r@[l].0.bounds.spec_intersects(
                        r@[l].1.bounds,
                    )),
                forall|l: int, m: int|
                    0 <= l < m < r@.len() ==> !spec_pair_matches(r@[l], r@[m].0.id, r@[m].1.id),
                forall|a: Id, b: Id|
                    self@.contains_key(a) && self@.contains_key(b) && a != b && (
                    #[trigger] self@[a]).spec_intersects(#[trigger] self@[b]) && (exists|t2: int|
                        0 <= t2 < t && self.cells@[t2] == owner_key(self@, a, b))
                        ==> spec_pair_listed(r@, a, b),
            decreases self.cells@.len() - t,
        {
            let ghost t0: int = t as int;
            let ghost r_t: Seq<(CollisionObject, CollisionObject)> = r@;
            let key = self.cells[t];
            proof {
                assert(self.cells@.contains(key));
                assert(self.grid@.contains_key(key));
                assert(self@ == self.entities@);
            }
            let bucket = self.grid.get(&key).unwrap();
            self.scan_pairs(bucket, bucket, true, &mut r);
            let ghost r_own: Seq<(CollisionObject, CollisionObject)> = r@;
            proof {
                assert(key / 0x1_0000_0000u64 <= 0xFFFF_FFFFu64) by (nonlinear_arith);
                assert(key % 0x1_0000_0000u64 < 0x1_0000_0000u64) by (nonlinear_arith);
            }
            let cx: i64 = (key / 0x1_0000_0000u64) as i64;
            let cy: i64 = (key % 0x1_0000_0000u64) as i64;
            proof {
                assert forall|a: Id|
                    self@.contains_key(a) && cell_key(self@[a]) == key implies (cell_index(
                    self@[a].x as int,
                ) == cx && cell_index(self@[a].y as int) == cy) by {
                    lemma_cell_index_bounds(self.entities@[a].x as int);
                    lemma_cell_index_bounds(self.entities@[a].y as int);
                    lemma_cell_key_decode(
                        cell_index(self.entities@[a].x as int),
                        cell_index(self.entities@[a].y as int),
                    );
                }
            }
            let mut h: usize = 0;
            while h < 4
                invariant
                    self.wf(),
                    self@ == self.entities@,
                    self.grid@.contains_key(key),
                    bucket == self.grid@[key],
                    0 <= cx <= 0xFFFF_FFFF,
                    0 <= cy <= 0xFFFF_FFFF,
                    0 <= h <= 4,
                    0 <= t0 < self.cells@.len(),
                    self.cells@[t0] == key,
                    forall|a: Id|
                        self@.contains_key(a) && cell_key(#[trigger] self@[a]) == key ==> (
                        cell_index(self@[a].x as int) == cx && cell_index(self@[a].y as int) == cy),
                    forall|l: int|
                        #![trigger r@[l]]
                        0 <= l < r@.len() ==> (self@.contains_key(r@[l].0.id)
                            && self@.contains_key(r@[l].1.id) && r@[l].0.id != r@[l].1.id
                            && r@[l].0.bounds == self@[r@[l].0.id] && r@[l].1.bounds
                            == self@[r@[l].1.id] && r@[l].0.bounds.spec_intersects(r@[l].1.bounds)),
                    forall|l: int, m: int|
                        0 <= l < m < r@.len() ==> !spec_pair_matches(r@[l], r@[m].0.id, r@[m].1.id),
                    forall|a: Id, b: Id|
                        spec_pair_listed(r_own, a, b) ==> spec_pair_listed(r@, a, b),
                    forall|i2: int, j2: int|
                        0 <= i2 < j2 < bucket@.len() && (#[trigger] bucket@[i2]) != (
                        #[trigger] bucket@[j2]) && self@[bucket@[i2]].spec_intersects(
                            self@[bucket@[j2]],
                        ) ==> spec_pair_listed(r@, bucket@[i2], bucket@[j2]),
                    forall|a: Id, b: Id|
                        self@.contains_key(a) && self@.contains_key(b) && a != b && (
                        #[trigger] self@[a]).spec_intersects(#[trigger] self@[b]) && cell_key(
                            self@[a],
                        ) == key && (exists|h2: int|
                            0 <= h2 < h && cell_index(self@[b].x as int) == cell_index(
                                self@[a].x as int,
                            ) + half_off_x(h2) && cell_index(self@[b].y as int) == cell_index(
                                self@[a].y as int,
                            ) + half_off_y(h2)) ==> spec_pair_listed(r@, a, b),
                    forall|a: Id, b: Id|
                        self@.contains_key(a) && self@.contains_key(b) && a != b && (
                        #[trigger] self@[a]).spec_intersects(#[trigger] self@[b]) && (exists|
                            t2: int,
                        | 0 <= t2 < t0 && self.cells@[t2] == owner_key(self@, a, b))
                            ==> spec_pair_listed(r@, a, b),
                decreases 4 - h,
            {
                let ghost h0: int = h as int;
                let ghost r_h: Seq<(CollisionObject, CollisionObject)> = r@;
                let dx: i64 = if h == 0 {
                    0
                } else {
                    -1
                };
                let dy: i64 = if h == 0 {
                    -1
                } else if h == 1 {
                    -1
                } else if h == 2 {
                    0
                } else {
                    1
                };
                proof {
                    assert(dx as int == half_off_x(h0) && dy as int == half_off_y(h0));
                }
                let nx: i64 = cx + dx;
                let ny: i64 = cy + dy;
                if nx >= 0 && ny >= 0 && nx < 0x1_0000_0000 && ny < 0x1_0000_0000 {
                    let nkey: u64 = (nx as u64) * 0x1_0000_0000u64 + (ny as u64);
                    proof {
                        assert(nkey == cell_key_at(nx as int, ny as int));
                    }
                    match self.grid.get(&nkey) {
                        Some(nbucket) => {
                            self.scan_pairs(bucket, nbucket, false, &mut r);
                            proof {
                                assert forall|a: Id, b: Id|
                                    self@.contains_key(a) && self@.contains_key(b) && a != b && (
                                    #[trigger] self@[a]).spec_intersects(#[trigger] self@[b])
                                        && cell_key(self@[a]) == key && cell_index(
                                        self@[b].x as int,
                                    ) == cell_index(self@[a].x as int) + half_off_x(h0)
                                        && cell_index(self@[b].y as int) == cell_index(
                                        self@[a].y as int,
                                    ) + half_off_y(h0) implies spec_pair_listed(r@, a, b) by {
                                    lemma_cell_index_bounds(self.entities@[b].x as int);
                                    lemma_cell_index_bounds(self.entities@[b].y as int);
                                    assert(cell_index(self@[b].x as int) == nx);
                                    assert(cell_index(self@[b].y as int) == ny);
                                    assert(cell_key(self@[b]) == nkey);
                                    assert(self.grid@[key]@.contains(a));
                                    assert(self.grid@[nkey]@.contains(b));
                                    let ia = choose|ia: int|
                                        0 <= ia < self.grid@[key]@.len() && self.grid@[key]@[ia]
                                            == a;
                                    let jb = choose|jb: int|
                                        0 <= jb < self.grid@[nkey]@.len() && self.grid@[nkey]@[jb]
                                            == b;
                                    assert(bucket@[ia] == a);
                                    assert(nbucket@[jb] == b);
                                    assert(spec_pair_listed(r@, bucket@[ia], nbucket@[jb]));
                                }
                            }
                        },
                        None => {
                            proof {
                                assert forall|a: Id, b: Id|
                                    self@.contains_key(a) && self@.contains_key(b) && a != b && (
                                    #[trigger] self@[a]).spec_intersects(#[trigger] self@[b])
                                        && cell_key(self@[a]) == key && cell_index(
                                        self@[b].x as int,
                                    ) == cell_index(self@[a].x as int) + half_off_x(h0)
                                        && cell_index(self@[b].y as int) == cell_index(
                                        self@[a].y as int,
                                    ) + half_off_y(h0) implies spec_pair_listed(r@, a, b) by {
                                    lemma_cell_index_bounds(self.entities@[b].x as int);
                                    lemma_cell_index_bounds(self.entities@[b].y as int);
                                    assert(cell_key(self@[b]) == nkey);
                                    assert(self.grid@.contains_key(cell_key(self.entities@[b])));
                                }
                            }
                        },
                    }
                } else {
                    proof {
                        assert forall|a: Id, b: Id|
                            self@.contains_key(a) && self@.contains_key(b) && a != b && (
                            #[trigger] self@[a]).spec_intersects(#[trigger] self@[b]) && cell_key(
                                self@[a],
                            ) == key && cell_index(self@[b].x as int) == cell_index(
                                self@[a].x as int,
                            ) + half_off_x(h0) && cell_index(self@[b].y as int) == cell_index(
                                self@[a].y as int,
                            ) + half_off_y(h0) implies spec_pair_listed(r@, a, b) by {
                            lemma_cell_index_bounds(self.entities@[b].x as int);
                            lemma_cell_index_bounds(self.entities@[b].y as int);
                        }
                    }
                }
                h = h + 1;
                proof {
                    assert forall|a: Id, b: Id|
                        spec_pair_listed(r_h, a, b) implies spec_pair_listed(r@, a, b) by {
                    }
                    assert forall|a: Id, b: Id|
                        spec_pair_listed(r_own, a, b) implies spec_pair_listed(r@, a, b) by {
                        assert(spec_pair_listed(r_h, a, b));
                    }
                    assert forall|i2: int, j2: int|
                        0 <= i2 < j2 < bucket@.len() && (#[trigger] bucket@[i2]) != (
                        #[trigger] bucket@[j2]) && self@[bucket@[i2]].spec_intersects(
                            self@[bucket@[j2]],
                        ) implies spec_pair_listed(r@, bucket@[i2], bucket@[j2]) by {
                        assert(spec_pair_listed(r_h, bucket@[i2], bucket@[j2]));
                    }
                    assert forall|a: Id, b: Id|
                        self@.contains_key(a) && self@.contains_key(b) && a != b && (
                        #[trigger] self@[a]).spec_intersects(#[trigger] self@[b]) && cell_key(
                            self@[a],
                        ) == key && (exists|h2: int|
                            0 <= h2 < h && cell_index(self@[b].x as int) == cell_index(
                                self@[a].x as int,
                            ) + half_off_x(h2) && cell_index(self@[b].y as int) == cell_index(
                                self@[a].y as int,
                            ) + half_off_y(h2)) implies spec_pair_listed(r@, a, b) by {
                        let h2 = choose|h2: int|
                            0 <= h2 < h && cell_index(self@[b].x as int) == cell_index(
                                self@[a].x as int,
                            ) + half_off_x(h2) && cell_index(self@[b].y as int) == cell_index(
                                self@[a].y as int,
                            ) + half_off_y(h2);
                        if h2 < h0 {
                            assert(spec_pair_listed(r_h, a, b));
                        }
                    }
                    assert forall|a: Id, b: Id|
                        self@.contains_key(a) && self@.contains_key(b) && a != b && (
                        #[trigger] self@[a]).spec_intersects(#[trigger] self@[b]) && (exists|
                            t2: int,
                        | 0 <= t2 < t0 && self.cells@[t2] == owner_key(self@, a, b))
                            implies spec_pair_listed(r@, a, b) by {
                        assert(spec_pair_listed(r_h, a, b));
                    }
                }
            }
            t = t + 1;
            proof {
                assert forall|a: Id, b: Id|
                    self@.contains_key(a) && self@.contains_key(b) && a != b && (
                    #[trigger] self@[a]).spec_intersects(#[trigger] self@[b]) && (exists|t2: int|
                        0 <= t2 < t && self.cells@[t2] == owner_key(self@, a, b))
                        implies spec_pair_listed(r@, a, b) by {
                    let t2 = choose|t2: int|
                        0 <= t2 < t && self.cells@[t2] == owner_key(self@, a, b);
                    if t2 < t - 1 {
                    } else {
                        assert(owner_key(self@, a, b) == key);
                        assert(self.entities@.contains_key(a));
                        assert(self.entities@.contains_key(b));
                        lemma_overlap_adjacent(self@[a], self@[b]);
                        if cell_key(self@[a]) == cell_key(self@[b]) {
                            assert(cell_key(self@[a]) == key);
                            assert(self.grid@[key]@.contains(a));
                            assert(self.grid@[key]@.contains(b));
                            let ia = choose|ia: int|
                                0 <= ia < self.grid@[key]@.len() && self.grid@[key]@[ia] == a;
                            let ib = choose|ib: int|
                                0 <= ib < self.grid@[key]@.len() && self.grid@[key]@[ib] == b;
                            assert(bucket@[ia] == a && bucket@[ib] == b);
                            assert(ia != ib);
                            if ia < ib {
                                assert(spec_pair_listed(r@, bucket@[ia], bucket@[ib]));
                            } else {
                                lemma_intersects_symmetric(self@[a], self@[b]);
                                assert(spec_pair_listed(r@, bucket@[ib], bucket@[ia]));
                                let l = choose|l: int|
                                    0 <= l < r@.len() && spec_pair_matches(r@[l], b, a);
                                assert(spec_pair_matches(r@[l], a, b));
                            }
                        } else {
                            let ddx = cell_index(self@[b].x as int) - cell_index(self@[a].x as int);
                            let ddy = cell_index(self@[b].y as int) - cell_index(self@[a].y as int);
                            lemma_cell_index_bounds(self.entities@[a].x as int);
                            lemma_cell_index_bounds(self.entities@[a].y as int);
                            lemma_cell_index_bounds(self.entities@[b].x as int);
                            lemma_cell_index_bounds(self.entities@[b].y as int);
                            assert(!(ddx == 0 && ddy == 0)) by {
                                if ddx == 0 && ddy == 0 {
                                    assert(cell_key(self@[a]) == cell_key(self@[b]));
                                }
                            }
                            if in_half(ddx, ddy) {
                                assert(cell_key(self@[a]) == key);
                                let h2: int = if ddx == 0 && ddy == -1 {
                                    0
                                } else if ddx == -1 && ddy == -1 {
                                    1
                                } else if ddx == -1 && ddy == 0 {
                                    2
                                } else {
                                    3
                                };
                                assert(cell_index(self@[b].x as int) == cell_index(
                                    self@[a].x as int,
                                ) + half_off_x(h2) && cell_index(self@[b].y as int) == cell_index(
                                    self@[a].y as int,
                                ) + half_off_y(h2));
                                assert(spec_pair_listed(r@, a, b));
                            } else {
                                assert(in_half(0 - ddx, 0 - ddy));
                                assert(cell_key(self@[b]) == key);
                                lemma_intersects_symmetric(self@[a], self@[b]);
                                let h2: int = if ddx == 0 && ddy == 1 {
                                    0
                                } else if ddx == 1 && ddy == 1 {
                                    1
                                } else if ddx == 1 && ddy == 0 {
                                    2
                                } else {
                                    3
                                };
                                assert(cell_index(self@[a].x as int) == cell_index(
                                    self@[b].x as int,
                                ) + half_off_x(h2) && cell_index(self@[a].y as int) == cell_index(
                                    self@[b].y as int,
                                ) + half_off_y(h2));
                                assert(spec_pair_listed(r@, b, a));
                                let l = choose|l: int|
                                    0 <= l < r@.len() && spec_pair_matches(r@[l], b, a);
                                assert(spec_pair_matches(r@[l], a, b));
                            }
                        }
                    }
                }
            }
        }
        proof {
            assert forall|a: Id, b: Id|
                self@.contains_key(a) && self@.contains_key(b) && a != b && (
                #[trigger] self@[a]).spec_intersects(#[trigger] self@[b]) implies spec_pair_listed(
                r@,
                a,
                b,
            ) by {
                assert(self@ == self.entities@);
                assert(self.entities@.contains_key(a));
                assert(self.entities@.contains_key(b));
                let ok = owner_key(self@, a, b);
                assert(ok == cell_key(self.entities@[a]) || ok == cell_key(self.entities@[b]));
                assert(self.grid@.contains_key(ok));
                assert(self.cells@.contains(ok));
                let t2 = choose|t2: int| 0 <= t2 < self.cells@.len() && self.cells@[t2] == ok;
                assert(0 <= t2 < self.cells@.len() && self.cells@[t2] == owner_key(self@, a, b));
            }
        }
        r
    }

    /// Couple each member of `own` with each member of `others` (with
    /// each later member of the same bucket when `same`), keeping the
    /// overlapping pairs not yet listed.
    #[verifier::rlimit(100)]
    fn scan_pairs(
        &self,
        own: &Vec<Id>,
        others: &Vec<Id>,
        same: bool,
        r: &mut Vec<(CollisionObject, CollisionObject)>,
    )
        requires
            self.wf(),
            exists|k: u64|
                #![trigger self.grid@[k]]
                self.grid@.contains_key(k) && own == self.grid@[k],
            exists|k: u64|
                #![trigger self.grid@[k]]
                self.grid@.contains_key(k) && others == self.grid@[k],
            same ==> own == others,
            forall|l: int|
                #![trigger old(r)@[l]]
                0 <= l < old(r)@.len() ==> (self@.contains_key(old(r)@[l].0.id)
                    && self@.contains_key(old(r)@[l].1.id) && old(r)@[l].0.id != old(r)@[l].1.id
                    && old(r)@[l].0.bounds == self@[old(r)@[l].0.id] && old(r)@[l].1.bounds
                    == self@[old(r)@[l].1.id] && old(r)@[l].0.bounds.spec_intersects(
                    old(r)@[l].1.bounds,
                )),
            forall|l: int, m: int|
                0 <= l < m < old(r)@.len() ==> !spec_pair_matches(
                    old(r)@[l],
                    old(r)@[m].0.id,
                    old(r)@[m].1.id,
                ),
        ensures
            forall|l: int|
                #![trigger final(r)@[l]]
                0 <= l < final(r)@.len() ==> (self@.contains_key(final(r)@[l].0.id)
                    && self@.contains_key(final(r)@[l].1.id) && final(r)@[l].0.id
                    != final(r)@[l].1.id && final(r)@[l].0.bounds == self@[final(r)@[l].0.id]
                    && final(r)@[l].1.bounds == self@[final(r)@[l].1.id]
                    && final(r)@[l].0.bounds.spec_intersects(final(r)@[l].1.bounds)),
            forall|l: int, m: int|
                0 <= l < m < final(r)@.len() ==> !spec_pair_matches(
                    final(r)@[l],
                    final(r)@[m].0.id,
                    final(r)@[m].1.id,
                ),
            forall|a: Id, b: Id|
                spec_pair_listed(old(r)@, a, b) ==> spec_pair_listed(final(r)@, a, b),
            forall|i: int, j: int|
                0 <= i < own@.len() && 0 <= j < others@.len() && (same ==> i < j) && (
                #[trigger] own@[i]) != (#[trigger] others@[j]) && self@[own@[i]].spec_intersects(
                    self@[others@[j]],
                ) ==> spec_pair_listed(final(r)@, own@[i], others@[j]),
    {
        let ghost ko: u64 = choose|k: u64|
            #![trigger self.grid@[k]]
            self.grid@.contains_key(k) && own == self.grid@[k];
        let ghost kn: u64 = choose|k: u64|
            #![trigger self.grid@[k]]
            self.grid@.contains_key(k) && others == self.grid@[k];
        let mut i: usize = 0;
        while i < own.len()
            invariant
                self.wf(),
                self.grid@.contains_key(ko),
                own == self.grid@[ko],
                self.grid@.contains_key(kn),
                others == self.grid@[kn],
                same ==> own == others,
                0 <= i <= own@.len(),
                forall|l: int|
                    #![trigger r@[l]]
                    0 <= l < r@.len() ==> (self@.contains_key(r@[l].0.id) && self@.contains_key(
                        r@[l].1.id,
                    ) && r@[l].0.id != r@[l].1.id && r@[l].0.bounds == self@[r@[l].0.id]
                        && r@[l].1.bounds == self@[r@[l].1.id] && r@[l].0.bounds.spec_intersects(
                        r@[l].1.bounds,
                    )),
                forall|l: int, m: int|
                    0 <= l < m < r@.len() ==> !spec_pair_matches(r@[l], r@[m].0.id, r@[m].1.id),
                forall|a: Id, b: Id|
                    spec_pair_listed(old(r)@, a, b) ==> spec_pair_listed(r@, a, b),
                forall|i2: int, j2: int|
                    0 <= i2 < i && 0 <= j2 < others@.len() && (same ==> i2 < j2) && (
                    #[trigger] own@[i2]) != (#[trigger] others@[j2])
                        && self@[own@[i2]].spec_intersects(self@[others@[j2]])
                        ==> spec_pair_listed(r@, own@[i2], others@[j2]),
            decreases own@.len() - i,
        {
            let ghost r_outer: Seq<(CollisionObject, CollisionObject)> = r@;
            let id_a = own[i];
            proof {
                assert(self.grid@[ko]@[i as int] == id_a);
                assert(self.entities@.contains_key(id_a));
            }
            let a_bounds = *self.entities.get(&id_a).unwrap();
            let mut j: usize = if same {
                i + 1
            } else {
                0
            };
            while j < others.len()
                invariant
                    self.wf(),
                    self.grid@.contains_key(ko),
                    own == self.grid@[ko],
                    self.grid@.contains_key(kn),
                    others == self.grid@[kn],
                    0 <= i < own@.len(),
                    own@[i as int] == id_a,
                    self@.contains_key(id_a),
                    a_bounds == self@[id_a],
                    same ==> own == others,
                    same ==> i < j,
                    0 <= j <= others@.len(),
                    forall|l: int|
                        #![trigger r@[l]]
                        0 <= l < r@.len() ==> (self@.contains_key(r@[l].0.id)
                            && self@.contains_key(r@[l].1.id) && r@[l].0.id != r@[l].1.id
                            && r@[l].0.bounds == self@[r@[l].0.id] && r@[l].1.bounds
                            == self@[r@[l].1.id] && r@[l].0.bounds.spec_intersects(r@[l].1.bounds)),
                    forall|l: int, m: int|
                        0 <= l < m < r@.len() ==> !spec_pair_matches(r@[l], r@[m].0.id, r@[m].1.id),
                    r@.len() >= r_outer.len(),
                    forall|l: int| 0 <= l < r_outer.len() ==> (#[trigger] r@[l]) == r_outer[l],
                    forall|a: Id, b: Id|
                        spec_pair_listed(old(r)@, a, b) ==> spec_pair_listed(r@, a, b),
                    forall|i2: int, j2: int|
                        0 <= i2 < i && 0 <= j2 < others@.len() && (same ==> i2 < j2) && (
                        #[trigger] own@[i2]) != (#[trigger] others@[j2])
                            && self@[own@[i2]].spec_intersects(self@[others@[j2]])
                            ==> spec_pair_listed(r@, own@[i2], others@[j2]),
                    forall|j2: int|
                        0 <= j2 < j && (same ==> i < j2) && own@[i as int] != (
                        #[trigger] others@[j2]) && self@[own@[i as int]].spec_intersects(
                            self@[others@[j2]],
                        ) ==> spec_pair_listed(r@, own@[i as int], others@[j2]),
                decreases others@.len() - j,
            {
                let ghost r_iter: Seq<(CollisionObject, CollisionObject)> = r@;
                let id_b = others[j];
                proof {
                    assert(self.grid@[kn]@[j as int] == id_b);
                    assert(self.entities@.contains_key(id_b));
                    if same {
                        assert(others == self.grid@[ko]);
                        assert(self.grid@[ko]@[i as int] != self.grid@[ko]@[j as int]);
                    }
                }
                let b_bounds = *self.entities.get(&id_b).unwrap();
                let qualifies = id_a != id_b && a_bounds.intersects(&b_bounds);
                if qualifies && !pair_listed_in(r, id_a, id_b) {
                    let ghost r0: Seq<(CollisionObject, CollisionObject)> = r@;
                    let pair = (
                        CollisionObject { id: id_a, bounds: a_bounds },
                        CollisionObject { id: id_b, bounds: b_bounds },
                    );
                    r.push(pair);
                    proof {
                        assert(r@ == r0.push(pair));
                        assert(r@[r@.len() - 1] == pair);
                        assert forall|l: int| #![trigger r@[l]] 0 <= l < r@.len() implies (self@.contains_key(
                            r@[l].0.id,
                        ) && self@.contains_key(r@[l].1.id) && r@[l].0.id != r@[l].1.id
                            && r@[l].0.bounds == self@[r@[l].0.id] && r@[l].1.bounds
                            == self@[r@[l].1.id] && r@[l].0.bounds.spec_intersects(
                            r@[l].1.bounds,
                        )) by {
                            if l < r@.len() - 1 {
                                assert(r@[l] == r0[l]);
                                let x = r0[l];
                            } else {
                                assert(r@[l] == pair);
                            }
                        }
                        assert forall|l: int, m: int|
                            0 <= l < m < r@.len() implies !spec_pair_matches(
                            r@[l],
                            r@[m].0.id,
                            r@[m].1.id,
                        ) by {
                            if m < r@.len() - 1 {
                                assert(r@[l] == r0[l] && r@[m] == r0[m]);
                            } else {
                                assert(r@[m] == pair);
                                assert(r@[l] == r0[l]);
                                let x = r0[l];
                            }
                        }
                        assert(spec_pair_matches(r@[r@.len() - 1], id_a, id_b));
                        assert forall|l: int|
                            0 <= l < r_outer.len() implies (#[trigger] r@[l]) == r_outer[l] by {
                            assert(r@[l] == r0[l]);
                        }
                        assert forall|a: Id, b: Id|
                            spec_pair_listed(r0, a, b) implies spec_pair_listed(r@, a, b) by {
                            let l = choose|l: int|
                                0 <= l < r0.len() && spec_pair_matches(r0[l], a, b);
                            assert(r@[l] == r0[l]);
                            assert(spec_pair_matches(r@[l], a, b));
                        }
                    }
                }
                j = j + 1;
                proof {
                    assert forall|a: Id, b: Id|
                        spec_pair_listed(r_iter, a, b) implies spec_pair_listed(r@, a, b) by {
                        let l = choose|l: int|
                            0 <= l < r_iter.len() && spec_pair_matches(r_iter[l], a, b);
                        assert(r@[l] == r_iter[l]);
                        assert(spec_pair_matches(r@[l], a, b));
                    }
                    assert(self@ == self.entities@);
                    assert(self@[id_a] == a_bounds);
                    assert(self@[id_b] == b_bounds);
                    if qualifies {
                        assert(spec_pair_listed(r@, id_a, id_b));
                    }
                    assert forall|j2: int|
                        0 <= j2 < j && (same ==> i < j2) && own@[i as int] != (
                        #[trigger] others@[j2]) && self@[own@[i as int]].spec_intersects(
                            self@[others@[j2]],
                        ) implies spec_pair_listed(r@, own@[i as int], others@[j2]) by {
                        if j2 < j - 1 {
                            assert(spec_pair_listed(r_iter, own@[i as int], others@[j2]));
                        } else {
                            assert(others@[j2] == id_b);
                            assert(qualifies);
                        }
                    }
                }
            }
            i = i + 1;
            proof {
                assert forall|a: Id, b: Id|
                    spec_pair_listed(r_outer, a, b) implies spec_pair_listed(r@, a, b) by {
                    let l = choose|l: int|
                        0 <= l < r_outer.len() && spec_pair_matches(r_outer[l], a, b);
                    assert(r@[l] == r_outer[l]);
                    assert(spec_pair_matches(r@[l], a, b));
                }
                assert forall|i2: int, j2: int|
                    0 <= i2 < i && 0 <= j2 < others@.len() && (same ==> i2 < j2) && (
                    #[trigger] own@[i2]) != (#[trigger] others@[j2])
                        && self@[own@[i2]].spec_intersects(self@[others@[j2]]) implies spec_pair_listed(
                    r@,
                    own@[i2],
                    others@[j2],
                ) by {
                    if i2 < i - 1 {
                        assert(spec_pair_listed(r_outer, own@[i2], others@[j2]));
                    } else {
                        assert(own@[i2] == id_a);
                    }
                }
            }
        }
    }
}

/// Filtering a listing with pairwise-distinct ids keeps the ids pairwise
/// distinct.
proof fn lemma_filter_distinct_ids(s: Seq<CollisionObject>, p: spec_fn(CollisionObject) -> bool)
    requires
        forall|i: int, j: int| 0 <= i < j < s.len() ==> s[i].id != s[j].id,
    ensures
        forall|i: int, j: int|
            0 <= i < j < s.filter(p).len() ==> s.filter(p)[i].id != s.filter(p)[j].id,
    decreases s.len(),
{
    reveal(Seq::filter);
    if s.len() == 0 {
    } else {
        let rest = s.drop_last();
        let last = s.last();
        assert forall|i: int, j: int| 0 <= i < j < rest.len() implies rest[i].id != rest[j].id by {
            assert(rest[i] == s[i] && rest[j] == s[j]);
        }
        lemma_filter_distinct_ids(rest, p);
        if p(last) {
            assert(s.filter(p) == rest.filter(p).push(last));
            assert forall|i: int, j: int|
                0 <= i < j < s.filter(p).len() implies s.filter(p)[i].id != s.filter(p)[j].id by {
                if j < s.filter(p).len() - 1 {
                    assert(s.filter(p)[i] == rest.filter(p)[i]);
                    assert(s.filter(p)[j] == rest.filter(p)[j]);
                } else {
                    assert(s.filter(p)[j] == last);
                    let x = rest.filter(p)[i];
                    assert(s.filter(p)[i] == x);
                    assert(rest.filter(p).contains(x));
                    rest.lemma_filter_contains_rev(p, x);
                    let w = choose|w: int| 0 <= w < rest.len() && rest[w] == x;
                    assert(s[w] == x);
                    assert(s[w].id != s[s.len() - 1].id);
                }
            }
        } else {
            assert(s.filter(p) == rest.filter(p));
            assert forall|i: int, j: int|
                0 <= i < j < s.filter(p).len() implies s.filter(p)[i].id != s.filter(p)[j].id by {
                assert(rest.filter(p)[i].id != rest.filter(p)[j].id);
            }
        }
    }
}

} // verus!} // verus!
