//! Deconstruction orders: marking objects for removal, and removing them
//! once the work is done.
use vstd::prelude::*;
use crate::grid::GridPosition;
use crate::building::{door_second, fits_footprint, in_rect, lists_rect, Door};
use crate::furniture::{FurnitureType, oriented_dims};
use crate::occupancy::{TileRecord, wall_cleared, door_cleared, occupancy_cleared};
use crate::jobs::{DeconstructionJob, DeconstructionMarker, DECONSTRUCTION_WORK, WORK_SCALE};
use crate::level::{Level, Worker, JobRef, MarkerSite, Structure, StructureKind, hit};

verus! {

/// Walls, doors, windows and furniture can be taken down; floors cannot.
pub open spec fn deconstructible(k: StructureKind) -> bool {
    !(k matches StructureKind::Floor(_))
}

pub open spec fn marker_complete(m: MarkerSite) -> bool {
    m.marker.work_done >= m.marker.work_required
}

pub open spec fn marker_incomplete(m: MarkerSite) -> bool {
    !marker_complete(m)
}

/// A fresh marker on `target` at `pos`, with its unassigned job.
pub open spec fn new_marker(id: u64, pos: GridPosition, target: u64) -> MarkerSite {
    MarkerSite {
        id,
        pos,
        marker: DeconstructionMarker { target_entity: target, work_required: (DECONSTRUCTION_WORK * WORK_SCALE) as u64, work_done: 0 },
        job: DeconstructionJob { marker: id, assigned_pawn: None },
    }
}

/// The ledger once `s` is taken down: a wall frees its tile, a door frees
/// both of its tiles, furniture frees its footprint (a reception console
/// holds none of its own), anything else frees its one tile.
pub open spec fn deconstructed(m: Map<GridPosition, TileRecord>, s: Structure) -> Map<GridPosition, TileRecord> {
    let p = s.pos;
    match s.kind {
        StructureKind::Wall => m.insert(p, wall_cleared(m[p])),
        StructureKind::Door(o) => {
            let m1 = m.insert(p, door_cleared(m[p]));
            let q = door_second(p, o);
            if m1.contains_key(q) { m1.insert(q, door_cleared(m1[q])) } else { m1 }
        },
        StructureKind::Furniture(t, o) => if t == FurnitureType::ReceptionConsole {
            m
        } else {
            Map::new(
                |q: GridPosition| m.contains_key(q),
                |q: GridPosition| if in_rect(p, oriented_dims(t, o).0, oriented_dims(t, o).1, q) {
                    occupancy_cleared(m[q])
                } else {
                    m[q]
                },
            )
        },
        _ => m.insert(p, occupancy_cleared(m[p])),
    }
}

/// `k` is the index of the first object of `objs` with id `id`.
pub open spec fn is_first(objs: Seq<Structure>, id: u64, k: int) -> bool {
    0 <= k < objs.len() && objs[k].id == id && forall|j: int| 0 <= j < k ==> (#[trigger] objs[j]).id != id
}

/// The first object of `objs` with id `id`, if any.
pub open spec fn first_obj(objs: Seq<Structure>, id: u64) -> Option<Structure> {
    if exists|k: int| is_first(objs, id, k) {
        Some(objs[choose|k: int| is_first(objs, id, k)])
    } else {
        None
    }
}

/// The ledger and the objects after the finished markers of `ms`, in
/// order, have each taken down the first object with their target's id.
pub open spec fn after_markers(m: Map<GridPosition, TileRecord>, objs: Seq<Structure>, ms: Seq<MarkerSite>) -> (Map<GridPosition, TileRecord>, Seq<Structure>)
    decreases ms.len(),
{
    if ms.len() == 0 {
        (m, objs)
    } else {
        let (m1, o1) = after_markers(m, objs, ms.drop_last());
        let mk = ms.last();
        if marker_complete(mk) {
            match first_obj(o1, mk.marker.target_entity) {
                Some(s) => (deconstructed(m1, s), o1.filter(|x: Structure| !hit(Some(mk.marker.target_entity), None, x.id))),
                None => (m1, o1),
            }
        } else {
            (m1, o1)
        }
    }
}

/// Whether `ms` holds a finished marker with id `id`.
pub open spec fn finished_marker_id(ms: Seq<MarkerSite>, id: u64) -> bool {
    exists|k: int| 0 <= k < ms.len() && marker_complete(#[trigger] ms[k]) && ms[k].id == id
}

/// A worker whose deconstruction job belongs to a finished marker of `ms` is idle again.
pub open spec fn freed_by(w: Worker, ms: Seq<MarkerSite>) -> Worker {
    match w.current_job {
        Some(JobRef::Deconstruction(id)) => if finished_marker_id(ms, id) { Worker { current_job: None, ..w } } else { w },
        _ => w,
    }
}

/// A worker whose deconstruction job `id` was carried out is idle again.
pub open spec fn marker_freed(w: Worker, id: u64) -> Worker {
    if w.current_job == Some(JobRef::Deconstruction(id)) { Worker { current_job: None, ..w } } else { w }
}

/// Object `k` of `l` stands at `pos`, can be taken down and is not marked.
pub open spec fn mark_candidate(l: Level, pos: GridPosition, k: int) -> bool {
    &&& 0 <= k < l.structures@.len()
    &&& l.structures@[k].pos == pos
    &&& deconstructible(l.structures@[k].kind)
    &&& !l.marked(l.structures@[k].id)
}

/// One tile of a drag marking: the first candidate object at `pos`, if
/// any, gets a fresh marker with its job; otherwise nothing changes.
pub open spec fn mark_step(pre: Level, post: Level, pos: GridPosition) -> bool {
    if !exists|k: int| #[trigger] mark_candidate(pre, pos, k) {
        post == pre
    } else {
        exists|k: int| {
            &&& #[trigger] mark_candidate(pre, pos, k)
            &&& forall|j: int| 0 <= j < k ==> !#[trigger] mark_candidate(pre, pos, j)
            &&& post.markers@ == pre.markers@.push(new_marker(pre.next_id, pos, pre.structures@[k].id))
            &&& post.next_id == pre.next_id + 1
            &&& post.settings == pre.settings
            &&& post.map == pre.map
            &&& post.money == pre.money
            &&& post.structures == pre.structures
            &&& post.blueprints == pre.blueprints
            &&& post.workers == pre.workers
        }
    }
}

proof fn lemma_freed_push(w: Worker, ms: Seq<MarkerSite>, m: MarkerSite)
    ensures
        freed_by(w, ms.push(m)) == if marker_complete(m) { marker_freed(freed_by(w, ms), m.id) } else { freed_by(w, ms) },
{
    let ms2 = ms.push(m);
    assert forall|id: u64| finished_marker_id(ms2, id) == (finished_marker_id(ms, id) || (marker_complete(m) && m.id == id)) by {
        if finished_marker_id(ms, id) {
            let k = choose|k: int| 0 <= k < ms.len() && marker_complete(#[trigger] ms[k]) && ms[k].id == id;
            assert(ms2[k] == ms[k]);
        }
        if marker_complete(m) && m.id == id {
            assert(ms2[ms.len() as int] == m);
        }
        if finished_marker_id(ms2, id) {
            let k = choose|k: int| 0 <= k < ms2.len() && marker_complete(#[trigger] ms2[k]) && ms2[k].id == id;
            if k < ms.len() {
                assert(ms2[k] == ms[k]);
            }
        }
    }
}

impl Level {
    pub open spec fn marked(&self, target: u64) -> bool {
        exists|i: int| 0 <= i < self.markers@.len() && (#[trigger] self.markers@[i]).marker.target_entity == target
    }

    /// `k` is the first object with id `id`.
    pub open spec fn first_with_id(&self, id: u64, k: int) -> bool {
        &&& 0 <= k < self.structures@.len()
        &&& self.structures@[k].id == id
        &&& forall|j: int| 0 <= j < k ==> (#[trigger] self.structures@[j]).id != id
    }

    pub open spec fn has_object(&self, id: u64) -> bool {
        exists|k: int| 0 <= k < self.structures@.len() && (#[trigger] self.structures@[k]).id == id
    }

    /// The index of the first object with id `id`.
    pub fn find_structure(&self, id: u64) -> (r: Option<usize>)
        ensures
            r matches Some(k) ==> self.first_with_id(id, k as int),
            r.is_none() ==> !self.has_object(id),
    {
        let mut i: usize = 0;
        while i < self.structures.len()
            invariant
                0 <= i <= self.structures@.len(),
                forall|j: int| 0 <= j < i ==> (#[trigger] self.structures@[j]).id != id,
            decreases self.structures@.len() - i,
        {
            if self.structures[i].id == id {
                return Some(i);
            }
            i = i + 1;
        }
        None
    }

    /// The first object at `pos` that can be taken down, by id.
    pub fn deconstructible_at(&self, pos: GridPosition) -> (r: Option<u64>)
        ensures
            r matches Some(id) ==> exists|k: int| 0 <= k < self.structures@.len() && (#[trigger] self.structures@[k]).id == id
                && self.structures@[k].pos == pos && deconstructible(self.structures@[k].kind)
                && forall|j: int| 0 <= j < k ==> !((#[trigger] self.structures@[j]).pos == pos && deconstructible(self.structures@[j].kind)),
            r.is_none() ==> forall|j: int| 0 <= j < self.structures@.len() ==>
                !((#[trigger] self.structures@[j]).pos == pos && deconstructible(self.structures@[j].kind)),
    {
        let mut i: usize = 0;
        while i < self.structures.len()
            invariant
                0 <= i <= self.structures@.len(),
                forall|j: int| 0 <= j < i ==> !((#[trigger] self.structures@[j]).pos == pos && deconstructible(self.structures@[j].kind)),
            decreases self.structures@.len() - i,
        {
            let s = self.structures[i];
            let ok = match s.kind {
                StructureKind::Floor(_) => false,
                _ => true,
            };
            if s.pos == pos && ok {
                return Some(s.id);
            }
            i = i + 1;
        }
        None
    }

    pub fn is_marked(&self, target: u64) -> (r: bool)
        ensures
            r == self.marked(target),
    {
        let mut i: usize = 0;
        while i < self.markers.len()
            invariant
                0 <= i <= self.markers@.len(),
                forall|j: int| 0 <= j < i ==> (#[trigger] self.markers@[j]).marker.target_entity != target,
            decreases self.markers@.len() - i,
        {
            if self.markers[i].marker.target_entity == target {
                return true;
            }
            i = i + 1;
        }
        false
    }

    /// Orders the object with id `target` taken down. Refused when there is
    /// no such object, when it cannot be taken down, or when it is already
    /// marked; then nothing changes.
    pub fn try_mark_for_deconstruction(&mut self, target: u64) -> (r: bool)
        requires
            old(self).wf(),
            old(self).next_id < u64::MAX,
        ensures
            final(self).wf(),
            r == ((exists|k: int| #[trigger] old(self).first_with_id(target, k) && deconstructible(old(self).structures@[k].kind))
                && !old(self).marked(target)),
            !r ==> *final(self) == *old(self),
            r ==> exists|k: int| #[trigger] old(self).first_with_id(target, k)
                && final(self).markers@ == old(self).markers@.push(new_marker(old(self).next_id, old(self).structures@[k].pos, target)),
            r ==> final(self).next_id == old(self).next_id + 1,
            final(self).settings == old(self).settings,
            final(self).map == old(self).map,
            final(self).money == old(self).money,
            final(self).structures == old(self).structures,
            final(self).blueprints == old(self).blueprints,
            final(self).workers == old(self).workers,
    {
        match self.find_structure(target) {
            None => {
                assert forall|j: int| !#[trigger] old(self).first_with_id(target, j) by {
                    if old(self).first_with_id(target, j) {
                        assert(self.structures@[j].id == target);
                    }
                }
                false
            },
            Some(k) => {
                let s = self.structures[k];
                let ok = match s.kind {
                    StructureKind::Floor(_) => false,
                    _ => true,
                };
                proof {
                    assert forall|j: int| #[trigger] old(self).first_with_id(target, j) implies j == k by {
                        if j < k { assert(self.structures@[j].id != target); }
                        if j > k { assert(self.structures@[k as int].id != target); }
                    }
                }
                if !ok || self.is_marked(target) {
                    proof {
                        if !ok {
                            assert forall|j: int| #[trigger] old(self).first_with_id(target, j) implies !deconstructible(old(self).structures@[j].kind) by {
                                assert(j == k);
                            }
                        }
                    }
                    return false;
                }
                let id = self.alloc_id();
                assert(self.settings.contains(self.structures@[k as int].pos));
                self.markers.push(MarkerSite {
                    id,
                    pos: s.pos,
                    marker: DeconstructionMarker::new(target),
                    job: DeconstructionJob::new(id),
                });
                proof {
                    assert(old(self).first_with_id(target, k as int));
                    assert(forall|i: int| 0 <= i < self.markers@.len() ==> (#[trigger] self.markers@[i]).marker.wf());
                }
                true
            },
        }
    }

    /// Marks the first object standing at `pos` that can be taken down and
    /// is not marked yet; says whether one was.
    pub fn mark_first_at(&mut self, pos: GridPosition) -> (r: bool)
        requires
            old(self).wf(),
            old(self).next_id < u64::MAX,
        ensures
            final(self).wf(),
            mark_step(*old(self), *final(self), pos),
            r == exists|k: int| #[trigger] mark_candidate(*old(self), pos, k),
            !r ==> *final(self) == *old(self),
            r ==> final(self).next_id == old(self).next_id + 1,
            r ==> exists|k: int| 0 <= k < old(self).structures@.len()
                && (#[trigger] old(self).structures@[k]).pos == pos
                && deconstructible(old(self).structures@[k].kind)
                && !old(self).marked(old(self).structures@[k].id)
                && final(self).markers@ == old(self).markers@.push(new_marker(old(self).next_id, pos, old(self).structures@[k].id)),
            final(self).settings == old(self).settings,
            final(self).map == old(self).map,
            final(self).money == old(self).money,
            final(self).structures == old(self).structures,
            final(self).blueprints == old(self).blueprints,
            final(self).workers == old(self).workers,
    {
        let mut i: usize = 0;
        while i < self.structures.len()
            invariant
                self.wf(),
                *self == *old(self),
                old(self).next_id < u64::MAX,
                0 <= i <= self.structures@.len(),
                forall|j: int| 0 <= j < i ==> !#[trigger] mark_candidate(*old(self), pos, j),
            decreases self.structures@.len() - i,
        {
            let s = self.structures[i];
            let ok = match s.kind {
                StructureKind::Floor(_) => false,
                _ => true,
            };
            if s.pos == pos && ok && !self.is_marked(s.id) {
                let id = self.alloc_id();
                assert(self.settings.contains(self.structures@[i as int].pos));
                self.markers.push(MarkerSite { id, pos, marker: DeconstructionMarker::new(s.id), job: DeconstructionJob::new(id) });
                proof {
                    assert(old(self).structures@[i as int].pos == pos);
                    assert(forall|j: int| 0 <= j < self.markers@.len() ==> (#[trigger] self.markers@[j]).marker.wf());
                    assert(mark_candidate(*old(self), pos, i as int));
                }
                return true;
            }
            proof {
                assert(!mark_candidate(*old(self), pos, i as int));
            }
            i = i + 1;
        }
        proof {
            assert forall|k: int| !#[trigger] mark_candidate(*old(self), pos, k) by {
                if 0 <= k < self.structures@.len() {
                    assert(!mark_candidate(*old(self), pos, k));
                }
            }
        }
        false
    }

    /// Marks, tile by tile over the rectangle spanned by `start` and `end`
    /// (column by column), the first unmarked object at each tile that can
    /// be taken down. Returns how many were marked; only markers are added.
    #[verifier::rlimit(80)]
    #[verifier::spinoff_prover]
    pub fn mark_area_for_deconstruction(&mut self, start: GridPosition, end: GridPosition) -> (r: u64)
        requires
            old(self).wf(),
            crate::controls::in_side(start),
            crate::controls::in_side(end),
            old(self).next_id + 0x1000_0000 < u64::MAX,
        ensures
            final(self).wf(),
            r <= 4097 * 4097,
            exists|ss: Seq<Level>| #![trigger ss[0]] {
                let n = crate::controls::span(start.x, end.x) * crate::controls::span(start.y, end.y);
                &&& ss.len() == n + 1
                &&& ss[0] == *old(self)
                &&& ss[n] == *final(self)
                &&& forall|t: int| 0 <= t < n ==> #[trigger] mark_step(ss[t], ss[t + 1], crate::placement::area_tile(start, end, t))
            },
            final(self).markers@.len() == old(self).markers@.len() + r,
            final(self).markers@.take(old(self).markers@.len() as int) == old(self).markers@,
            final(self).next_id == old(self).next_id + r,
            final(self).settings == old(self).settings,
            final(self).map == old(self).map,
            final(self).money == old(self).money,
            final(self).structures == old(self).structures,
            final(self).blueprints == old(self).blueprints,
            final(self).workers == old(self).workers,
    {
        let min_x = if start.x < end.x { start.x } else { end.x };
        let max_x = if start.x < end.x { end.x } else { start.x };
        let min_y = if start.y < end.y { start.y } else { end.y };
        let max_y = if start.y < end.y { end.y } else { start.y };
        let ghost h = crate::controls::span(start.y, end.y);
        let ghost mut ss: Seq<Level> = seq![*self];
        let mut count: u64 = 0;
        let mut x: i32 = min_x;
        while x <= max_x
            invariant
                h == max_y - min_y + 1,
                h == crate::controls::span(start.y, end.y),
                min_x == crate::controls::min_i(start.x, end.x),
                min_y == crate::controls::min_i(start.y, end.y),
                ss.len() == (x - min_x) * h + 1,
                ss[0] == *old(self),
                ss[ss.len() - 1] == *self,
                forall|t: int| 0 <= t < ss.len() - 1 ==> #[trigger] mark_step(ss[t], ss[t + 1], crate::placement::area_tile(start, end, t)),
                self.wf(),
                0 <= min_x <= x <= max_x + 1,
                max_x <= crate::grid::MAX_GRID_SIDE,
                0 <= min_y <= max_y <= crate::grid::MAX_GRID_SIDE,
                count <= (x - min_x) * 4097,
                self.markers@.len() == old(self).markers@.len() + count,
                self.markers@.take(old(self).markers@.len() as int) == old(self).markers@,
                self.next_id == old(self).next_id + count,
                old(self).next_id + 0x1000_0000 < u64::MAX,
                self.settings == old(self).settings,
                self.map == old(self).map,
                self.money == old(self).money,
                self.structures == old(self).structures,
                self.blueprints == old(self).blueprints,
                self.workers == old(self).workers,
            decreases max_x + 1 - x,
        {
            let mut y: i32 = min_y;
            let ghost c0 = count;
            while y <= max_y
                invariant
                    h == max_y - min_y + 1,
                    h == crate::controls::span(start.y, end.y),
                    min_x == crate::controls::min_i(start.x, end.x),
                    min_y == crate::controls::min_i(start.y, end.y),
                    ss.len() == (x - min_x) * h + (y - min_y) + 1,
                    ss[0] == *old(self),
                    ss[ss.len() - 1] == *self,
                    forall|t: int| 0 <= t < ss.len() - 1 ==> #[trigger] mark_step(ss[t], ss[t + 1], crate::placement::area_tile(start, end, t)),
                    self.wf(),
                    0 <= min_x <= x <= max_x,
                    max_x <= crate::grid::MAX_GRID_SIDE,
                    0 <= min_y <= y <= max_y + 1,
                    max_y <= crate::grid::MAX_GRID_SIDE,
                    c0 <= (x - min_x) * 4097,
                    count <= c0 + (y - min_y),
                    self.markers@.len() == old(self).markers@.len() + count,
                    self.markers@.take(old(self).markers@.len() as int) == old(self).markers@,
                    self.next_id == old(self).next_id + count,
                    old(self).next_id + 0x1000_0000 < u64::MAX,
                    self.settings == old(self).settings,
                    self.map == old(self).map,
                    self.money == old(self).money,
                    self.structures == old(self).structures,
                    self.blueprints == old(self).blueprints,
                    self.workers == old(self).workers,
                decreases max_y + 1 - y,
            {
                assert((x - min_x) * 4097 + 4097 <= 4097 * 4097) by (nonlinear_arith)
                    requires 0 <= x - min_x <= 4096;
                let ghost pre = *self;
                let ghost before = self.markers@;
                if self.mark_first_at(GridPosition { x, y }) {
                    proof {
                        assert(self.markers@.take(old(self).markers@.len() as int) =~= before.take(old(self).markers@.len() as int));
                    }
                    count = count + 1;
                }
                proof {
                    let t = (x - min_x) * h + (y - min_y);
                    vstd::arithmetic::div_mod::lemma_fundamental_div_mod_converse(t, h, (x - min_x) as int, (y - min_y) as int);
                    assert(crate::placement::area_tile(start, end, t) == GridPosition { x, y });
                    assert(mark_step(pre, *self, GridPosition { x, y }));
                    let prev = ss;
                    ss = ss.push(*self);
                    assert forall|q: int| 0 <= q < ss.len() - 1 implies #[trigger] mark_step(ss[q], ss[q + 1], crate::placement::area_tile(start, end, q)) by {
                        if q < prev.len() - 1 {
                            assert(ss[q] == prev[q] && ss[q + 1] == prev[q + 1]);
                        }
                    }
                }
                y = y + 1;
            }
            assert(count <= (x + 1 - min_x) * 4097) by (nonlinear_arith)
                requires count <= c0 + (max_y + 1 - min_y), c0 <= (x - min_x) * 4097, max_y + 1 - min_y <= 4097;
            assert((x - min_x) * h + (max_y + 1 - min_y) == (x + 1 - min_x) * h) by (nonlinear_arith)
                requires h == max_y - min_y + 1;
            x = x + 1;
        }
        proof {
            assert(crate::controls::span(start.x, end.x) == max_x - min_x + 1);
        }
        count
    }

    /// Frees the occupancy of every grid tile of the piece's footprint.
    fn clear_footprint(&mut self, t: FurnitureType, o: crate::furniture::FurnitureOrientation, p: GridPosition)
        requires
            old(self).wf(),
            fits_footprint(p),
        ensures
            final(self).wf(),
            final(self).map@ == Map::new(
                |q: GridPosition| old(self).map@.contains_key(q),
                |q: GridPosition| if in_rect(p, oriented_dims(t, o).0, oriented_dims(t, o).1, q) {
                    occupancy_cleared(old(self).map@[q])
                } else {
                    old(self).map@[q]
                },
            ),
            final(self).map.width == old(self).map.width,
            final(self).map.height == old(self).map.height,
            final(self).settings == old(self).settings,
            final(self).money == old(self).money,
            final(self).structures == old(self).structures,
            final(self).blueprints == old(self).blueprints,
            final(self).markers == old(self).markers,
            final(self).workers == old(self).workers,
            final(self).next_id == old(self).next_id,
    {
        let tiles = t.tiles_occupied(p, o);
        let ghost w = oriented_dims(t, o).0;
        let ghost h = oriented_dims(t, o).1;
        let ghost m0 = self.map@;
        let mut i: usize = 0;
        while i < tiles.len()
            invariant
                self.wf(),
                w == oriented_dims(t, o).0,
                h == oriented_dims(t, o).1,
                m0 == old(self).map@,
                0 <= i <= tiles@.len(),
                lists_rect(tiles@, p, w, h),
                self.map.width == old(self).map.width,
                self.map.height == old(self).map.height,
                forall|q: GridPosition| #[trigger] m0.contains_key(q) ==> self.map@[q] == if tiles@.take(i as int).contains(q) {
                    occupancy_cleared(m0[q])
                } else {
                    m0[q]
                },
                self.settings == old(self).settings,
                self.money == old(self).money,
                self.structures == old(self).structures,
                self.blueprints == old(self).blueprints,
                self.markers == old(self).markers,
                self.workers == old(self).workers,
                self.next_id == old(self).next_id,
            decreases tiles@.len() - i,
        {
            let q = tiles[i];
            proof {
                assert(tiles@.take(i as int + 1) =~= tiles@.take(i as int).push(q));
            }
            if self.map.contains_pos(q) {
                self.map.clear_occupied(q);
            }
            proof {
                assert forall|r: GridPosition| #[trigger] m0.contains_key(r) implies self.map@[r] == if tiles@.take(i as int + 1).contains(r) {
                    occupancy_cleared(m0[r])
                } else {
                    m0[r]
                } by {
                    if r != q {
                        assert(tiles@.take(i as int + 1).contains(r) == tiles@.take(i as int).contains(r)) by {
                            if tiles@.take(i as int + 1).contains(r) {
                                let j = choose|j: int| 0 <= j < i + 1 && #[trigger] tiles@.take(i as int + 1)[j] == r;
                                assert(tiles@.take(i as int)[j] == r);
                            }
                        }
                    } else {
                        assert(tiles@.take(i as int + 1)[i as int] == q);
                    }
                }
            }
            i = i + 1;
        }
        proof {
            assert(tiles@.take(i as int) =~= tiles@);
            let target = Map::new(
                |q: GridPosition| old(self).map@.contains_key(q),
                |q: GridPosition| if in_rect(p, w, h, q) {
                    occupancy_cleared(old(self).map@[q])
                } else {
                    old(self).map@[q]
                },
            );
            assert forall|q: GridPosition| #[trigger] m0.contains_key(q) implies self.map@[q] == target[q] by {
                if tiles@.contains(q) {
                    let j = choose|j: int| 0 <= j < tiles@.len() && tiles@[j] == q;
                    assert(in_rect(p, w, h, tiles@[j]));
                }
            }
            assert(self.map@ =~= target);
        }
    }

    /// Idles every worker whose deconstruction job is `id`.
    fn free_workers_of_marker(&mut self, id: u64)
        requires
            old(self).wf(),
        ensures
            final(self).wf(),
            final(self).workers@.len() == old(self).workers@.len(),
            forall|i: int| 0 <= i < final(self).workers@.len() ==> #[trigger] final(self).workers@[i] == (
                if old(self).workers@[i].current_job == Some(JobRef::Deconstruction(id)) {
                    Worker { current_job: None, ..old(self).workers@[i] }
                } else {
                    old(self).workers@[i]
                }),
            final(self).settings == old(self).settings,
            final(self).map == old(self).map,
            final(self).money == old(self).money,
            final(self).structures == old(self).structures,
            final(self).blueprints == old(self).blueprints,
            final(self).markers == old(self).markers,
            final(self).next_id == old(self).next_id,
    {
        let mut i: usize = 0;
        while i < self.workers.len()
            invariant
                old(self).wf(),
                0 <= i <= self.workers@.len(),
                self.workers@.len() == old(self).workers@.len(),
                forall|j: int| 0 <= j < self.workers@.len() ==> #[trigger] self.workers@[j] == (
                    if j < i && old(self).workers@[j].current_job == Some(JobRef::Deconstruction(id)) {
                        Worker { current_job: None, ..old(self).workers@[j] }
                    } else {
                        old(self).workers@[j]
                    }),
                self.settings == old(self).settings,
                self.map == old(self).map,
                self.money == old(self).money,
                self.structures == old(self).structures,
                self.blueprints == old(self).blueprints,
                self.markers == old(self).markers,
                self.next_id == old(self).next_id,
            decreases self.workers@.len() - i,
        {
            if self.workers[i].current_job == Some(JobRef::Deconstruction(id)) {
                self.workers[i].current_job = None;
            }
            i = i + 1;
        }
        assert(forall|j: int| 0 <= j < self.workers@.len() ==> (#[trigger] self.workers@[j]).work_priorities.wf()) by {
            assert forall|j: int| 0 <= j < self.workers@.len() implies (#[trigger] self.workers@[j]).work_priorities.wf() by {
                assert(old(self).workers@[j].work_priorities.wf());
            }
        }
    }

    /// Carries out a finished marker `m`: the worker holding its job is idle
    /// again, the ledger is freed under its target (the first object with the
    /// target's id), and the target goes. A marker whose target is gone only
    /// releases its worker.
    pub fn finish_marker(&mut self, m: MarkerSite)
        requires
            old(self).wf(),
        ensures
            final(self).wf(),
            final(self).workers@.len() == old(self).workers@.len(),
            forall|i: int| 0 <= i < final(self).workers@.len() ==> #[trigger] final(self).workers@[i]
                == marker_freed(old(self).workers@[i], m.id),
            final(self).blueprints == old(self).blueprints,
            forall|k: int| #[trigger] old(self).first_with_id(m.marker.target_entity, k) ==> {
                &&& final(self).map@ == deconstructed(old(self).map@, old(self).structures@[k])
                &&& final(self).structures@ == old(self).structures@.filter(|s: Structure| !hit(Some(m.marker.target_entity), None, s.id))
            },
            !old(self).has_object(m.marker.target_entity) ==> final(self).map == old(self).map
                && final(self).structures@ == old(self).structures@,
            old(self).has_object(m.marker.target_entity) ==> final(self).structures@
                == old(self).structures@.filter(|s: Structure| !hit(Some(m.marker.target_entity), None, s.id)),
            (final(self).map@, final(self).structures@) == match first_obj(old(self).structures@, m.marker.target_entity) {
                Some(s) => (deconstructed(old(self).map@, s), old(self).structures@.filter(
                    |x: Structure| !hit(Some(m.marker.target_entity), None, x.id),
                )),
                None => (old(self).map@, old(self).structures@),
            },
            final(self).settings == old(self).settings,
            final(self).money == old(self).money,
            final(self).markers == old(self).markers,
            final(self).next_id == old(self).next_id,
    {
        self.free_workers_of_marker(m.id);
        let ghost w1 = self.workers@;
        let target = m.marker.target_entity;
        match self.find_structure(target) {
            None => {
                proof {
                    assert(!old(self).has_object(target));
                    assert(old(self).first_with_id(target, 0) ==> old(self).has_object(target));
                    assert forall|k: int| !is_first(old(self).structures@, target, k) by {
                        if is_first(old(self).structures@, target, k) {
                            assert(old(self).structures@[k].id == target);
                        }
                    }
                }
            },
            Some(k) => {
                let s = self.structures[k];
                assert(self.settings.contains(self.structures@[k as int].pos));
                let ghost m0 = self.map@;
                match s.kind {
                    StructureKind::Wall => {
                        self.map.clear_wall(s.pos);
                    },
                    StructureKind::Door(o) => {
                        self.map.clear_door(s.pos);
                        let tiles = Door::new(o).tiles_occupied(s.pos);
                        let q = tiles[1];
                        if self.map.contains_pos(q) {
                            self.map.clear_door(q);
                        }
                    },
                    StructureKind::Furniture(t, o) => {
                        let console = match t {
                            FurnitureType::ReceptionConsole => true,
                            _ => false,
                        };
                        if !console {
                            self.clear_footprint(t, o, s.pos);
                        }
                    },
                    _ => {
                        self.map.clear_occupied(s.pos);
                    },
                }
                proof {
                    assert(self.map@ =~= deconstructed(m0, s));
                }
                self.remove_structure(target);
                proof {
                    assert(old(self).first_with_id(target, k as int));
                    assert(old(self).has_object(target));
                    assert forall|j: int| #[trigger] old(self).first_with_id(target, j) implies j == k by {
                        if j < k { assert(old(self).structures@[j].id != target); }
                        if j > k { assert(old(self).structures@[k as int].id != target); }
                    }
                    assert(is_first(old(self).structures@, target, k as int));
                    let c = choose|c: int| is_first(old(self).structures@, target, c);
                    assert(old(self).first_with_id(target, c));
                    assert(c == k);
                }
            },
        }
    }

    /// Carries out every finished marker, in order, and drops it with its
    /// job; markers still in progress stay, in order.
    pub fn complete_deconstruction(&mut self)
        requires
            old(self).wf(),
        ensures
            final(self).wf(),
            final(self).markers@ == old(self).markers@.filter(|m: MarkerSite| marker_incomplete(m)),
            final(self).workers@.len() == old(self).workers@.len(),
            forall|i: int| 0 <= i < final(self).workers@.len() && (exists|k: int| 0 <= k < old(self).markers@.len()
                && marker_complete(#[trigger] old(self).markers@[k])
                && old(self).workers@[i].current_job == Some(JobRef::Deconstruction(old(self).markers@[k].id)))
                ==> (#[trigger] final(self).workers@[i]).current_job.is_none(),
            forall|k: int, j: int| 0 <= k < old(self).markers@.len() && marker_complete(#[trigger] old(self).markers@[k])
                && 0 <= j < final(self).structures@.len()
                ==> (#[trigger] final(self).structures@[j]).id != old(self).markers@[k].marker.target_entity,
            forall|j: int| 0 <= j < final(self).structures@.len() ==> old(self).structures@.contains(#[trigger] final(self).structures@[j]),
            (final(self).map@, final(self).structures@) == after_markers(old(self).map@, old(self).structures@, old(self).markers@),
            forall|i: int| 0 <= i < final(self).workers@.len() ==>
                #[trigger] final(self).workers@[i] == freed_by(old(self).workers@[i], old(self).markers@),
            final(self).blueprints == old(self).blueprints,
            final(self).settings == old(self).settings,
            final(self).money == old(self).money,
            final(self).next_id == old(self).next_id,
    {
        let ghost m0 = self.markers@;
        let mut kept: Vec<MarkerSite> = Vec::new();
        let mut i: usize = 0;
        while i < self.markers.len()
            invariant
                self.wf(),
                self.markers@ == m0,
                m0 == old(self).markers@,
                0 <= i <= m0.len(),
                kept@ == m0.take(i as int).filter(|m: MarkerSite| marker_incomplete(m)),
                forall|k: int| 0 <= k < kept@.len() ==> exists|j: int| 0 <= j < m0.len() && m0[j] == #[trigger] kept@[k],
                self.workers@.len() == old(self).workers@.len(),
                forall|w: int| 0 <= w < self.workers@.len() ==>
                    #[trigger] self.workers@[w] == freed_by(old(self).workers@[w], m0.take(i as int)),
                self.blueprints == old(self).blueprints,
                forall|k: int, j: int| 0 <= k < i && marker_complete(#[trigger] m0[k]) && 0 <= j < self.structures@.len()
                    ==> (#[trigger] self.structures@[j]).id != m0[k].marker.target_entity,
                forall|j: int| 0 <= j < self.structures@.len() ==> old(self).structures@.contains(#[trigger] self.structures@[j]),
                (self.map@, self.structures@) == after_markers(old(self).map@, old(self).structures@, m0.take(i as int)),
                self.settings == old(self).settings,
                self.money == old(self).money,
                self.next_id == old(self).next_id,
            decreases m0.len() - i,
        {
            let m = self.markers[i];
            proof {
                assert(m0.take(i as int + 1) =~= m0.take(i as int).push(m));
                assert(m0.take(i as int + 1).drop_last() =~= m0.take(i as int));
                assert(m0.take(i as int + 1).last() == m);
                m0.take(i as int).lemma_filter_push(m, |m: MarkerSite| marker_incomplete(m));
            }
            if m.marker.is_complete() {
                let ghost before = self.workers@;
                let ghost sb = self.structures@;
                self.finish_marker(m);
                proof {
                    let target = m.marker.target_entity;
                    let pred = |s: Structure| !hit(Some(target), None, s.id);
                    let has = exists|q: int| 0 <= q < sb.len() && (#[trigger] sb[q]).id == target;
                    assert forall|j: int| 0 <= j < self.structures@.len() implies
                        sb.contains(#[trigger] self.structures@[j]) && self.structures@[j].id != target by {
                        if has {
                            assert(self.structures@ == sb.filter(pred));
                            sb.lemma_filter_pred(pred, j);
                            sb.lemma_filter_contains_rev(pred, self.structures@[j]);
                        } else {
                            assert(self.structures@ == sb);
                            assert(sb[j].id != target);
                        }
                    }
                    assert forall|j: int| 0 <= j < self.structures@.len() implies old(self).structures@.contains(#[trigger] self.structures@[j]) by {
                        assert(sb.contains(self.structures@[j]));
                        let q = choose|q: int| 0 <= q < sb.len() && sb[q] == self.structures@[j];
                        assert(old(self).structures@.contains(sb[q]));
                    }
                    assert forall|w: int| 0 <= w < self.workers@.len() implies
                        #[trigger] self.workers@[w] == freed_by(old(self).workers@[w], m0.take(i as int + 1)) by {
                        lemma_freed_push(old(self).workers@[w], m0.take(i as int), m);
                        assert(before[w] == freed_by(old(self).workers@[w], m0.take(i as int)));
                    }
                }
            } else {
                kept.push(m);
                proof {
                    assert(m0[i as int] == kept@[kept@.len() - 1]);
                    assert forall|w: int| 0 <= w < self.workers@.len() implies
                        #[trigger] self.workers@[w] == freed_by(old(self).workers@[w], m0.take(i as int + 1)) by {
                        lemma_freed_push(old(self).workers@[w], m0.take(i as int), m);
                    }
                }
            }
            i = i + 1;
        }
        proof {
            assert(m0.take(m0.len() as int) =~= m0);
            assert forall|k: int| 0 <= k < kept@.len() implies (#[trigger] kept@[k]).marker.wf() && self.settings.contains(kept@[k].pos) by {
                let j = choose|j: int| 0 <= j < m0.len() && m0[j] == kept@[k];
                assert(old(self).markers@[j] == m0[j]);
            }
        }
        self.markers = kept;
    }
}

/// Placing a wall at `p` (as `try_place` does), finishing it (which links
/// the tile to the finished wall) and then taking that wall down leaves the
/// ledger exactly as it was before the placement.
pub proof fn lemma_wall_place_build_remove(l0: Level, l1: Level, built: Map<GridPosition, TileRecord>, wall: Structure, p: GridPosition)
    requires
        l0.wf(),
        l0.free_for_wall(p),
        l1.placed_from(&l0, crate::economy::BuildingType::Wall, p, crate::building::DoorOrientation::Horizontal,
            crate::furniture::FurnitureOrientation::East),
        built == l1.map@.insert(p, crate::occupancy::wall_relinked(l1.map@[p], wall.id)),
        wall.kind == StructureKind::Wall,
        wall.pos == p,
    ensures
        deconstructed(built, wall) == l0.map@,
{
    crate::occupancy::lemma_wall_round_trip(l0.map@, p, l0.next_id, wall.id);
}

} // verus!
