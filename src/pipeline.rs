//! Progress and completion of construction and deconstruction work.
use vstd::prelude::*;
use crate::grid::{GridPosition, GridSettings, WorldPos, dist2, distance_squared, grid_to_world};
use crate::building::DoorState;
use crate::occupancy::{TileRecord, wall_relinked};
use crate::jobs::{BlueprintType, accumulated, CONSTRUCTION_SPEED, DECONSTRUCTION_SPEED, MAX_STEP_MS};
use crate::level::{Level, Worker, JobRef, BlueprintSite, MarkerSite, Structure, StructureKind};
use crate::scheduler::world_of;

verus! {

/// Workers work on a target closer than this many tiles.
pub const INTERACTION_RADIUS_TILES: i32 = 3;

/// Doors open for workers closer than this many tiles.
pub const DOOR_OPEN_TILES: i32 = 4;

pub open spec fn near_door(s: GridSettings, from: WorldPos, p: GridPosition) -> bool {
    dist2(from, world_of(s, p)) < (DOOR_OPEN_TILES * s.tile_size) * (DOOR_OPEN_TILES * s.tile_size)
}

pub open spec fn in_reach(s: GridSettings, from: WorldPos, p: GridPosition) -> bool {
    dist2(from, world_of(s, p)) < (INTERACTION_RADIUS_TILES * s.tile_size) * (INTERACTION_RADIUS_TILES * s.tile_size)
}

pub open spec fn complete(b: BlueprintSite) -> bool {
    b.blueprint.work_done >= b.blueprint.work_required
}

pub open spec fn incomplete(b: BlueprintSite) -> bool {
    !complete(b)
}

/// What a finished blueprint becomes; furniture is never built from one.
pub open spec fn finished_kind(t: BlueprintType) -> Option<StructureKind> {
    match t {
        BlueprintType::Wall => Some(StructureKind::Wall),
        BlueprintType::Door(o) => Some(StructureKind::Door(o)),
        BlueprintType::Window => Some(StructureKind::Window),
        BlueprintType::Floor(f) => Some(StructureKind::Floor(f)),
        BlueprintType::Furniture(_) => None,
    }
}

/// The objects that the complete blueprints of `sites` become, in order,
/// with ids counted up from `next`.
pub open spec fn completions(sites: Seq<BlueprintSite>, next: int) -> Seq<Structure>
    decreases sites.len(),
{
    if sites.len() == 0 {
        seq![]
    } else {
        let prev = completions(sites.drop_last(), next);
        let b = sites.last();
        if complete(b) && finished_kind(b.blueprint.building_type).is_some() {
            prev.push(Structure { id: (next + prev.len()) as u64, kind: finished_kind(b.blueprint.building_type).unwrap(), pos: b.pos })
        } else {
            prev
        }
    }
}

/// The ledger after each finished wall in `built` takes over its tile's wall entry.
pub open spec fn relinks(m: Map<GridPosition, TileRecord>, built: Seq<Structure>) -> Map<GridPosition, TileRecord>
    decreases built.len(),
{
    if built.len() == 0 {
        m
    } else {
        let prev = relinks(m, built.drop_last());
        let s = built.last();
        if s.kind == StructureKind::Wall && prev.contains_key(s.pos) {
            prev.insert(s.pos, wall_relinked(prev[s.pos], s.id))
        } else {
            prev
        }
    }
}

/// Whether `sites` holds a complete blueprint with id `j`.
pub open spec fn completed_id(sites: Seq<BlueprintSite>, j: u64) -> bool {
    exists|k: int| 0 <= k < sites.len() && (#[trigger] sites[k]).id == j && complete(sites[k])
}

/// A worker whose construction job was finished is idle again.
pub open spec fn freed(w: Worker, sites: Seq<BlueprintSite>) -> Worker {
    match w.current_job {
        Some(JobRef::Construction(j)) => if completed_id(sites, j) { Worker { current_job: None, ..w } } else { w },
        _ => w,
    }
}

pub proof fn lemma_completions_len(sites: Seq<BlueprintSite>, next: int)
    ensures
        completions(sites, next).len() <= sites.len(),
    decreases sites.len(),
{
    if sites.len() > 0 {
        lemma_completions_len(sites.drop_last(), next);
    }
}

pub proof fn lemma_relinks_domain(m: Map<GridPosition, TileRecord>, built: Seq<Structure>)
    ensures
        relinks(m, built).dom() == m.dom(),
    decreases built.len(),
{
    if built.len() > 0 {
        lemma_relinks_domain(m, built.drop_last());
        let prev = relinks(m, built.drop_last());
        let s = built.last();
        if s.kind == StructureKind::Wall && prev.contains_key(s.pos) {
            assert(prev.insert(s.pos, wall_relinked(prev[s.pos], s.id)).dom() =~= prev.dom());
        }
    }
}

/// Worker `w` holds the construction job of the first blueprint of `bs`
/// with index `k`'s id, and stands within reach of it.
pub open spec fn builds(s: GridSettings, w: Worker, bs: Seq<BlueprintSite>, k: int) -> bool {
    &&& 0 <= k < bs.len()
    &&& w.current_job == Some(JobRef::Construction(bs[k].id))
    &&& forall|j: int| 0 <= j < k ==> (#[trigger] bs[j]).id != bs[k].id
    &&& in_reach(s, w.position, bs[k].pos)
}

/// Worker `w` holds the deconstruction job of the first marker of `ms`
/// with index `k`'s id, and stands within reach of it.
pub open spec fn takes_down(s: GridSettings, w: Worker, ms: Seq<MarkerSite>, k: int) -> bool {
    &&& 0 <= k < ms.len()
    &&& w.current_job == Some(JobRef::Deconstruction(ms[k].id))
    &&& forall|j: int| 0 <= j < k ==> (#[trigger] ms[j]).id != ms[k].id
    &&& in_reach(s, w.position, ms[k].pos)
}

/// One construction work step of `dt_ms` for worker `wi`: when it holds the
/// job of a blueprint within reach, that blueprint gains the work and the
/// worker stops moving; otherwise nothing changes.
pub open spec fn build_step(pre: Level, post: Level, wi: int, dt_ms: u64) -> bool {
    let w = pre.workers@[wi];
    if !exists|k: int| #[trigger] builds(pre.settings, w, pre.blueprints@, k) {
        post == pre
    } else {
        exists|k: int| {
            let b = pre.blueprints@[k];
            &&& #[trigger] builds(pre.settings, w, pre.blueprints@, k)
            &&& post.blueprints@ == pre.blueprints@.update(k, BlueprintSite {
                blueprint: crate::jobs::Blueprint {
                    work_done: accumulated(b.blueprint.work_done as int, b.blueprint.work_required as int, CONSTRUCTION_SPEED * dt_ms) as u64,
                    ..b.blueprint
                },
                ..b
            })
            &&& post.workers@ == pre.workers@.update(wi, Worker { movement_target: None, ..w })
            &&& post.settings == pre.settings
            &&& post.map == pre.map
            &&& post.money == pre.money
            &&& post.structures == pre.structures
            &&& post.markers == pre.markers
            &&& post.next_id == pre.next_id
        }
    }
}

/// One deconstruction work step of `dt_ms` for worker `wi`, as for construction.
pub open spec fn unbuild_step(pre: Level, post: Level, wi: int, dt_ms: u64) -> bool {
    let w = pre.workers@[wi];
    if !exists|k: int| #[trigger] takes_down(pre.settings, w, pre.markers@, k) {
        post == pre
    } else {
        exists|k: int| {
            let m = pre.markers@[k];
            &&& #[trigger] takes_down(pre.settings, w, pre.markers@, k)
            &&& post.markers@ == pre.markers@.update(k, MarkerSite {
                marker: crate::jobs::DeconstructionMarker {
                    work_done: accumulated(m.marker.work_done as int, m.marker.work_required as int, DECONSTRUCTION_SPEED * dt_ms) as u64,
                    ..m.marker
                },
                ..m
            })
            &&& post.workers@ == pre.workers@.update(wi, Worker { movement_target: None, ..w })
            &&& post.settings == pre.settings
            &&& post.map == pre.map
            &&& post.money == pre.money
            &&& post.structures == pre.structures
            &&& post.blueprints == pre.blueprints
            &&& post.next_id == pre.next_id
        }
    }
}

/// Worker `wi`'s share of a work step: construction work, then deconstruction work.
pub open spec fn worker_step(pre: Level, post: Level, wi: int, dt_ms: u64) -> bool {
    exists|mid: Level| #[trigger] build_step(pre, mid, wi, dt_ms) && unbuild_step(mid, post, wi, dt_ms)
}

/// `b1` is `b0` with at least as much work done.
pub open spec fn site_advanced(b0: BlueprintSite, b1: BlueprintSite) -> bool {
    &&& b1 == BlueprintSite { blueprint: crate::jobs::Blueprint { work_done: b1.blueprint.work_done, ..b0.blueprint }, ..b0 }
    &&& b0.blueprint.work_done <= b1.blueprint.work_done
}

/// `m1` is `m0` with at least as much work done.
pub open spec fn marker_advanced(m0: MarkerSite, m1: MarkerSite) -> bool {
    &&& m1 == MarkerSite { marker: crate::jobs::DeconstructionMarker { work_done: m1.marker.work_done, ..m0.marker }, ..m0 }
    &&& m0.marker.work_done <= m1.marker.work_done
}

/// `w1` is `w0` but for its movement target.
pub open spec fn only_moved(w0: Worker, w1: Worker) -> bool {
    w1 == Worker { movement_target: w1.movement_target, ..w0 }
}

impl Level {
    /// The index of the first blueprint with id `id`.
    pub fn find_site(&self, id: u64) -> (r: Option<usize>)
        ensures
            r matches Some(k) ==> k < self.blueprints@.len() && self.blueprints@[k as int].id == id
                && forall|j: int| 0 <= j < k ==> (#[trigger] self.blueprints@[j]).id != id,
            r.is_none() ==> forall|j: int| 0 <= j < self.blueprints@.len() ==> (#[trigger] self.blueprints@[j]).id != id,
    {
        let mut i: usize = 0;
        while i < self.blueprints.len()
            invariant
                0 <= i <= self.blueprints@.len(),
                forall|j: int| 0 <= j < i ==> (#[trigger] self.blueprints@[j]).id != id,
            decreases self.blueprints@.len() - i,
        {
            if self.blueprints[i].id == id {
                return Some(i);
            }
            i = i + 1;
        }
        None
    }

    /// The index of the first marker with id `id`.
    pub fn find_marker(&self, id: u64) -> (r: Option<usize>)
        ensures
            r matches Some(k) ==> k < self.markers@.len() && self.markers@[k as int].id == id
                && forall|j: int| 0 <= j < k ==> (#[trigger] self.markers@[j]).id != id,
            r.is_none() ==> forall|j: int| 0 <= j < self.markers@.len() ==> (#[trigger] self.markers@[j]).id != id,
    {
        let mut i: usize = 0;
        while i < self.markers.len()
            invariant
                0 <= i <= self.markers@.len(),
                forall|j: int| 0 <= j < i ==> (#[trigger] self.markers@[j]).id != id,
            decreases self.markers@.len() - i,
        {
            if self.markers[i].id == id {
                return Some(i);
            }
            i = i + 1;
        }
        None
    }

    fn reach(&self, from: WorldPos, p: GridPosition) -> (r: bool)
        requires
            self.wf(),
            self.settings.contains(p),
        ensures
            r == in_reach(self.settings, from, p),
    {
        let target = grid_to_world(p, self.settings.tile_size, self.settings.width, self.settings.height);
        let radius: u128 = (INTERACTION_RADIUS_TILES as u128) * (self.settings.tile_size as u128);
        assert(radius * radius <= 3072 * 3072) by (nonlinear_arith)
            requires radius <= 3072;
        distance_squared(from, target) < radius * radius
    }

    /// Worker `wi` works for `dt_ms` on the blueprint of its construction
    /// job, if it is within reach of it; it then stops moving.
    pub fn work_on_blueprint(&mut self, wi: usize, dt_ms: u64) -> (r: Option<usize>)
        requires
            old(self).wf(),
            wi < old(self).workers@.len(),
            dt_ms <= MAX_STEP_MS,
        ensures
            final(self).wf(),
            r.is_none() ==> *final(self) == *old(self),
            r matches Some(k) ==> {
                let w = old(self).workers@[wi as int];
                let b = old(self).blueprints@[k as int];
                &&& k < old(self).blueprints@.len()
                &&& w.current_job == Some(JobRef::Construction(b.id))
                &&& forall|j: int| 0 <= j < k ==> (#[trigger] old(self).blueprints@[j]).id != b.id
                &&& in_reach(old(self).settings, w.position, b.pos)
                &&& final(self).blueprints@[k as int].blueprint.work_done == accumulated(
                    b.blueprint.work_done as int,
                    b.blueprint.work_required as int,
                    CONSTRUCTION_SPEED * dt_ms,
                )
                &&& final(self).blueprints@ == old(self).blueprints@.update(k as int, final(self).blueprints@[k as int])
                &&& final(self).blueprints@[k as int] == (BlueprintSite {
                    blueprint: crate::jobs::Blueprint { work_done: final(self).blueprints@[k as int].blueprint.work_done, ..b.blueprint },
                    ..b
                })
                &&& final(self).workers@ == old(self).workers@.update(wi as int, Worker { movement_target: None, ..w })
                &&& final(self).settings == old(self).settings
                &&& final(self).map == old(self).map
                &&& final(self).money == old(self).money
                &&& final(self).structures == old(self).structures
                &&& final(self).markers == old(self).markers
                &&& final(self).next_id == old(self).next_id
            },
            build_step(*old(self), *final(self), wi as int, dt_ms),
            r.is_none() ==> !(exists|k: int| {
                let w = old(self).workers@[wi as int];
                &&& 0 <= k < old(self).blueprints@.len()
                &&& w.current_job == Some(JobRef::Construction((#[trigger] old(self).blueprints@[k]).id))
                &&& forall|j: int| 0 <= j < k ==> (#[trigger] old(self).blueprints@[j]).id != old(self).blueprints@[k].id
                &&& in_reach(old(self).settings, w.position, old(self).blueprints@[k].pos)
            }),
    {
        let w = self.workers[wi];
        let id = match w.current_job {
            Some(JobRef::Construction(j)) => j,
            _ => {
                assert forall|k: int| !#[trigger] builds(old(self).settings, w, old(self).blueprints@, k) by {}
                return None;
            },
        };
        match self.find_site(id) {
            None => {
                assert forall|k: int| !#[trigger] builds(old(self).settings, w, old(self).blueprints@, k) by {
                    if 0 <= k < old(self).blueprints@.len() {
                        assert(old(self).blueprints@[k].id != id);
                    }
                }
                None
            },
            Some(k) => {
                let b = self.blueprints[k];
                if !self.reach(w.position, b.pos) {
                    assert forall|q: int| !#[trigger] builds(old(self).settings, w, old(self).blueprints@, q) by {
                        if builds(old(self).settings, w, old(self).blueprints@, q) {
                            if q < k { assert(old(self).blueprints@[q].id == id); }
                            if q > k { assert(old(self).blueprints@[k as int].id == id); }
                        }
                    }
                    return None;
                }
                self.workers[wi].movement_target = None;
                self.blueprints[k].blueprint.add_work(CONSTRUCTION_SPEED, dt_ms);
                proof {
                    assert(self.blueprints@ =~= old(self).blueprints@.update(k as int, self.blueprints@[k as int]));
                    assert(builds(old(self).settings, w, old(self).blueprints@, k as int));
                    assert(self.blueprints@[k as int] == (BlueprintSite {
                        blueprint: crate::jobs::Blueprint {
                            work_done: accumulated(b.blueprint.work_done as int, b.blueprint.work_required as int, CONSTRUCTION_SPEED * dt_ms) as u64,
                            ..b.blueprint
                        },
                        ..b
                    }));
                    assert(self.workers@ =~= old(self).workers@.update(wi as int, Worker { movement_target: None, ..w }));
                    assert(forall|i: int| 0 <= i < self.workers@.len() ==> (#[trigger] self.workers@[i]).work_priorities.wf());
                    assert(forall|i: int| 0 <= i < self.blueprints@.len() ==> (#[trigger] self.blueprints@[i]).blueprint.wf());
                }
                Some(k)
            },
        }
    }

    /// Worker `wi` works for `dt_ms` on the marker of its deconstruction
    /// job, if it is within reach of it; it then stops moving.
    pub fn work_on_marker(&mut self, wi: usize, dt_ms: u64) -> (r: Option<usize>)
        requires
            old(self).wf(),
            wi < old(self).workers@.len(),
            dt_ms <= MAX_STEP_MS,
        ensures
            final(self).wf(),
            r.is_none() ==> *final(self) == *old(self),
            r matches Some(k) ==> {
                let w = old(self).workers@[wi as int];
                let m = old(self).markers@[k as int];
                &&& k < old(self).markers@.len()
                &&& w.current_job == Some(JobRef::Deconstruction(m.id))
                &&& forall|j: int| 0 <= j < k ==> (#[trigger] old(self).markers@[j]).id != m.id
                &&& in_reach(old(self).settings, w.position, m.pos)
                &&& final(self).markers@[k as int].marker.work_done == accumulated(
                    m.marker.work_done as int,
                    m.marker.work_required as int,
                    DECONSTRUCTION_SPEED * dt_ms,
                )
                &&& final(self).markers@ == old(self).markers@.update(k as int, final(self).markers@[k as int])
                &&& final(self).markers@[k as int] == (MarkerSite {
                    marker: crate::jobs::DeconstructionMarker { work_done: final(self).markers@[k as int].marker.work_done, ..m.marker },
                    ..m
                })
                &&& final(self).workers@ == old(self).workers@.update(wi as int, Worker { movement_target: None, ..w })
                &&& final(self).settings == old(self).settings
                &&& final(self).map == old(self).map
                &&& final(self).money == old(self).money
                &&& final(self).structures == old(self).structures
                &&& final(self).blueprints == old(self).blueprints
                &&& final(self).next_id == old(self).next_id
            },
            unbuild_step(*old(self), *final(self), wi as int, dt_ms),
            r.is_none() ==> !(exists|k: int| #[trigger] takes_down(old(self).settings, old(self).workers@[wi as int], old(self).markers@, k)),
    {
        let w = self.workers[wi];
        let id = match w.current_job {
            Some(JobRef::Deconstruction(j)) => j,
            _ => {
                assert forall|k: int| !#[trigger] takes_down(old(self).settings, w, old(self).markers@, k) by {}
                return None;
            },
        };
        match self.find_marker(id) {
            None => {
                assert forall|k: int| !#[trigger] takes_down(old(self).settings, w, old(self).markers@, k) by {
                    if 0 <= k < old(self).markers@.len() {
                        assert(old(self).markers@[k].id != id);
                    }
                }
                None
            },
            Some(k) => {
                let m = self.markers[k];
                if !self.reach(w.position, m.pos) {
                    assert forall|q: int| !#[trigger] takes_down(old(self).settings, w, old(self).markers@, q) by {
                        if takes_down(old(self).settings, w, old(self).markers@, q) {
                            if q < k { assert(old(self).markers@[q].id == id); }
                            if q > k { assert(old(self).markers@[k as int].id == id); }
                        }
                    }
                    return None;
                }
                self.workers[wi].movement_target = None;
                self.markers[k].marker.add_work(DECONSTRUCTION_SPEED, dt_ms);
                proof {
                    assert(self.markers@ =~= old(self).markers@.update(k as int, self.markers@[k as int]));
                    assert(takes_down(old(self).settings, w, old(self).markers@, k as int));
                    assert(self.markers@[k as int] == (MarkerSite {
                        marker: crate::jobs::DeconstructionMarker {
                            work_done: accumulated(m.marker.work_done as int, m.marker.work_required as int, DECONSTRUCTION_SPEED * dt_ms) as u64,
                            ..m.marker
                        },
                        ..m
                    }));
                    assert(self.workers@ =~= old(self).workers@.update(wi as int, Worker { movement_target: None, ..w }));
                    assert(forall|i: int| 0 <= i < self.workers@.len() ==> (#[trigger] self.workers@[i]).work_priorities.wf());
                    assert(forall|i: int| 0 <= i < self.markers@.len() ==> (#[trigger] self.markers@[i]).marker.wf());
                }
                Some(k)
            },
        }
    }

    /// Every worker, in order, does one step of construction work and one
    /// of deconstruction work. Only work done and movement targets change.
    pub fn work_step(&mut self, dt_ms: u64)
        requires
            old(self).wf(),
            dt_ms <= MAX_STEP_MS,
        ensures
            exists|ss: Seq<Level>| ss.len() == old(self).workers@.len() + 1 && ss[0] == *old(self)
                && ss[old(self).workers@.len() as int] == *final(self)
                && forall|i: int| 0 <= i < old(self).workers@.len() ==> #[trigger] worker_step(ss[i], ss[i + 1], i, dt_ms),
            final(self).wf(),
            final(self).workers@.len() == old(self).workers@.len(),
            final(self).blueprints@.len() == old(self).blueprints@.len(),
            final(self).markers@.len() == old(self).markers@.len(),
            forall|i: int| 0 <= i < final(self).workers@.len() ==> #[trigger] only_moved(old(self).workers@[i], final(self).workers@[i]),
            forall|k: int| 0 <= k < final(self).blueprints@.len() ==> #[trigger] site_advanced(old(self).blueprints@[k], final(self).blueprints@[k]),
            forall|k: int| 0 <= k < final(self).markers@.len() ==> #[trigger] marker_advanced(old(self).markers@[k], final(self).markers@[k]),
            forall|k: int| 0 <= k < old(self).blueprints@.len() && (forall|i: int| 0 <= i < old(self).workers@.len() ==>
                (#[trigger] old(self).workers@[i]).current_job != Some(JobRef::Construction(old(self).blueprints@[k].id)))
                ==> #[trigger] final(self).blueprints@[k] == old(self).blueprints@[k],
            forall|i: int, k: int| 0 <= i < old(self).workers@.len()
                && #[trigger] builds(old(self).settings, old(self).workers@[i], old(self).blueprints@, k)
                ==> final(self).blueprints@[k].blueprint.work_done >= accumulated(
                    old(self).blueprints@[k].blueprint.work_done as int,
                    old(self).blueprints@[k].blueprint.work_required as int,
                    CONSTRUCTION_SPEED * dt_ms,
                ),
            forall|k: int| 0 <= k < old(self).markers@.len() && (forall|i: int| 0 <= i < old(self).workers@.len() ==>
                (#[trigger] old(self).workers@[i]).current_job != Some(JobRef::Deconstruction(old(self).markers@[k].id)))
                ==> #[trigger] final(self).markers@[k] == old(self).markers@[k],
            forall|i: int, k: int| 0 <= i < old(self).workers@.len()
                && #[trigger] takes_down(old(self).settings, old(self).workers@[i], old(self).markers@, k)
                ==> final(self).markers@[k].marker.work_done >= accumulated(
                    old(self).markers@[k].marker.work_done as int,
                    old(self).markers@[k].marker.work_required as int,
                    DECONSTRUCTION_SPEED * dt_ms,
                ),
            final(self).settings == old(self).settings,
            final(self).map == old(self).map,
            final(self).money == old(self).money,
            final(self).structures == old(self).structures,
            final(self).next_id == old(self).next_id,
    {
        let ghost mut ss: Seq<Level> = seq![*self];
        let mut wi: usize = 0;
        while wi < self.workers.len()
            invariant
                ss.len() == wi + 1,
                ss[0] == *old(self),
                ss[wi as int] == *self,
                forall|i: int| 0 <= i < wi ==> #[trigger] worker_step(ss[i], ss[i + 1], i, dt_ms),
                self.wf(),
                dt_ms <= MAX_STEP_MS,
                0 <= wi <= self.workers@.len(),
                self.workers@.len() == old(self).workers@.len(),
                self.blueprints@.len() == old(self).blueprints@.len(),
                self.markers@.len() == old(self).markers@.len(),
                forall|i: int| 0 <= i < self.workers@.len() ==> #[trigger] only_moved(old(self).workers@[i], self.workers@[i]),
                forall|k: int| 0 <= k < self.blueprints@.len() ==> #[trigger] site_advanced(old(self).blueprints@[k], self.blueprints@[k]),
                forall|k: int| 0 <= k < self.markers@.len() ==> #[trigger] marker_advanced(old(self).markers@[k], self.markers@[k]),
                forall|k: int| 0 <= k < old(self).blueprints@.len() && (forall|i: int| 0 <= i < old(self).workers@.len() ==>
                    (#[trigger] old(self).workers@[i]).current_job != Some(JobRef::Construction(old(self).blueprints@[k].id)))
                    ==> #[trigger] self.blueprints@[k] == old(self).blueprints@[k],
                forall|i: int, k: int| 0 <= i < wi
                    && #[trigger] builds(old(self).settings, old(self).workers@[i], old(self).blueprints@, k)
                    ==> self.blueprints@[k].blueprint.work_done >= accumulated(
                        old(self).blueprints@[k].blueprint.work_done as int,
                        old(self).blueprints@[k].blueprint.work_required as int,
                        CONSTRUCTION_SPEED * dt_ms,
                    ),
                forall|k: int| 0 <= k < old(self).markers@.len() && (forall|i: int| 0 <= i < old(self).workers@.len() ==>
                    (#[trigger] old(self).workers@[i]).current_job != Some(JobRef::Deconstruction(old(self).markers@[k].id)))
                    ==> #[trigger] self.markers@[k] == old(self).markers@[k],
                forall|i: int, k: int| 0 <= i < wi
                    && #[trigger] takes_down(old(self).settings, old(self).workers@[i], old(self).markers@, k)
                    ==> self.markers@[k].marker.work_done >= accumulated(
                        old(self).markers@[k].marker.work_done as int,
                        old(self).markers@[k].marker.work_required as int,
                        DECONSTRUCTION_SPEED * dt_ms,
                    ),
                self.settings == old(self).settings,
                self.map == old(self).map,
                self.money == old(self).money,
                self.structures == old(self).structures,
                self.next_id == old(self).next_id,
            decreases self.workers@.len() - wi,
        {
            let ghost s0 = *self;
            assert(forall|j: int| 0 <= j < s0.blueprints@.len() ==> #[trigger] site_advanced(old(self).blueprints@[j], s0.blueprints@[j]));
            assert(forall|i: int| 0 <= i < s0.workers@.len() ==> #[trigger] only_moved(old(self).workers@[i], s0.workers@[i]));
            let r1 = self.work_on_blueprint(wi, dt_ms);
            proof {
                let ws = old(self).workers@[wi as int];
                assert(s0.workers@[wi as int].current_job == ws.current_job && s0.workers@[wi as int].position == ws.position) by {
                    assert(only_moved(ws, s0.workers@[wi as int]));
                }
                assert forall|k: int| 0 <= k < old(self).blueprints@.len() && (forall|i: int| 0 <= i < old(self).workers@.len() ==>
                    (#[trigger] old(self).workers@[i]).current_job != Some(JobRef::Construction(old(self).blueprints@[k].id)))
                    implies #[trigger] self.blueprints@[k] == old(self).blueprints@[k] by {
                    assert(s0.blueprints@[k] == old(self).blueprints@[k]);
                    if let Some(kk) = r1 {
                        if k == kk {
                            assert(site_advanced(old(self).blueprints@[k], s0.blueprints@[k]));
                            assert(old(self).workers@[wi as int].current_job != Some(JobRef::Construction(old(self).blueprints@[k].id)));
                        }
                    }
                }
                assert forall|i: int, k: int| 0 <= i < wi + 1
                    && #[trigger] builds(old(self).settings, old(self).workers@[i], old(self).blueprints@, k)
                    implies self.blueprints@[k].blueprint.work_done >= accumulated(
                        old(self).blueprints@[k].blueprint.work_done as int,
                        old(self).blueprints@[k].blueprint.work_required as int,
                        CONSTRUCTION_SPEED * dt_ms,
                    ) by {
                    assert(site_advanced(old(self).blueprints@[k], s0.blueprints@[k]));
                    assert(site_advanced(old(self).blueprints@[k], self.blueprints@[k])) by {
                        if let Some(kk) = r1 {
                            assert(site_advanced(old(self).blueprints@[k], s0.blueprints@[k]));
                        }
                    }
                    if i == wi {
                        assert forall|j: int| 0 <= j < s0.blueprints@.len() implies (#[trigger] s0.blueprints@[j]).id == old(self).blueprints@[j].id by {
                            assert(site_advanced(old(self).blueprints@[j], s0.blueprints@[j]));
                        }
                        assert(builds(s0.settings, s0.workers@[wi as int], s0.blueprints@, k));
                        assert(r1 == Some(k as usize)) by {
                            if r1.is_none() {
                                assert(exists|q: int| {
                                    let w = s0.workers@[wi as int];
                                    &&& 0 <= q < s0.blueprints@.len()
                                    &&& w.current_job == Some(JobRef::Construction((#[trigger] s0.blueprints@[q]).id))
                                    &&& forall|j: int| 0 <= j < q ==> (#[trigger] s0.blueprints@[j]).id != s0.blueprints@[q].id
                                    &&& in_reach(s0.settings, w.position, s0.blueprints@[q].pos)
                                });
                            }
                            let kk = r1.unwrap() as int;
                            if kk < k {
                                assert(s0.blueprints@[kk].id == s0.blueprints@[k].id);
                            }
                            if kk > k {
                                assert(s0.blueprints@[k].id == s0.blueprints@[kk].id);
                            }
                        }
                    } else {
                        if let Some(kk) = r1 {
                            if kk == k {
                                assert(self.blueprints@[k].blueprint.work_done >= s0.blueprints@[k].blueprint.work_done);
                            }
                        }
                    }
                }
                if let Some(k) = r1 {
                    assert forall|j: int| 0 <= j < self.blueprints@.len() implies #[trigger] site_advanced(old(self).blueprints@[j], self.blueprints@[j]) by {
                        assert(site_advanced(old(self).blueprints@[j], s0.blueprints@[j]));
                    }
                    assert forall|i: int| 0 <= i < self.workers@.len() implies #[trigger] only_moved(old(self).workers@[i], self.workers@[i]) by {
                        assert(only_moved(old(self).workers@[i], s0.workers@[i]));
                    }
                }
            }
            let ghost s1 = *self;
            assert(forall|j: int| 0 <= j < s1.markers@.len() ==> #[trigger] marker_advanced(old(self).markers@[j], s1.markers@[j]));
            assert(forall|i: int| 0 <= i < s1.workers@.len() ==> #[trigger] only_moved(old(self).workers@[i], s1.workers@[i]));
            let r2 = self.work_on_marker(wi, dt_ms);
            proof {
                let ws = old(self).workers@[wi as int];
                assert(s1.workers@[wi as int].current_job == ws.current_job && s1.workers@[wi as int].position == ws.position) by {
                    assert(only_moved(ws, s1.workers@[wi as int]));
                }
                assert forall|k: int| 0 <= k < old(self).markers@.len() && (forall|i: int| 0 <= i < old(self).workers@.len() ==>
                    (#[trigger] old(self).workers@[i]).current_job != Some(JobRef::Deconstruction(old(self).markers@[k].id)))
                    implies #[trigger] self.markers@[k] == old(self).markers@[k] by {
                    assert(s1.markers@[k] == old(self).markers@[k]);
                    if let Some(kk) = r2 {
                        if k == kk {
                            assert(marker_advanced(old(self).markers@[k], s1.markers@[k]));
                            assert(old(self).workers@[wi as int].current_job != Some(JobRef::Deconstruction(old(self).markers@[k].id)));
                        }
                    }
                }
                assert forall|i: int, k: int| 0 <= i < wi + 1
                    && #[trigger] takes_down(old(self).settings, old(self).workers@[i], old(self).markers@, k)
                    implies self.markers@[k].marker.work_done >= accumulated(
                        old(self).markers@[k].marker.work_done as int,
                        old(self).markers@[k].marker.work_required as int,
                        DECONSTRUCTION_SPEED * dt_ms,
                    ) by {
                    assert(marker_advanced(old(self).markers@[k], s1.markers@[k]));
                    if i == wi {
                        assert forall|j: int| 0 <= j < s1.markers@.len() implies (#[trigger] s1.markers@[j]).id == old(self).markers@[j].id by {
                            assert(marker_advanced(old(self).markers@[j], s1.markers@[j]));
                        }
                        assert(takes_down(s1.settings, s1.workers@[wi as int], s1.markers@, k));
                        assert(r2 == Some(k as usize)) by {
                            let kk = r2.unwrap() as int;
                            if kk < k {
                                assert(s1.markers@[kk].id == s1.markers@[k].id);
                            }
                            if kk > k {
                                assert(s1.markers@[k].id == s1.markers@[kk].id);
                            }
                        }
                    } else {
                        if let Some(kk) = r2 {
                            if kk == k {
                                assert(self.markers@[k].marker.work_done >= s1.markers@[k].marker.work_done);
                            }
                        }
                    }
                }
                if let Some(k) = r2 {
                    assert forall|j: int| 0 <= j < self.markers@.len() implies #[trigger] marker_advanced(old(self).markers@[j], self.markers@[j]) by {
                        assert(marker_advanced(old(self).markers@[j], s1.markers@[j]));
                    }
                    assert forall|i: int| 0 <= i < self.workers@.len() implies #[trigger] only_moved(old(self).workers@[i], self.workers@[i]) by {
                        assert(only_moved(old(self).workers@[i], s1.workers@[i]));
                    }
                }
            }
            proof {
                assert(build_step(s0, s1, wi as int, dt_ms));
                assert(worker_step(s0, *self, wi as int, dt_ms));
                let prev = ss;
                ss = ss.push(*self);
                assert forall|q: int| 0 <= q < wi + 1 implies #[trigger] worker_step(ss[q], ss[q + 1], q, dt_ms) by {
                    if q < wi {
                        assert(ss[q] == prev[q] && ss[q + 1] == prev[q + 1]);
                    }
                }
            }
            wi = wi + 1;
        }
    }

    /// Idles every worker whose construction job is `id`.
    fn free_workers_of(&mut self, id: u64, ghost_sites: Ghost<Seq<BlueprintSite>>)
        requires
            old(self).wf(),
            forall|i: int| 0 <= i < old(self).workers@.len() ==> {
                let w = #[trigger] old(self).workers@[i];
                w.current_job == Some(JobRef::Construction(id)) ==> completed_id(ghost_sites@, id)
            },
        ensures
            final(self).wf(),
            final(self).workers@.len() == old(self).workers@.len(),
            forall|i: int| 0 <= i < final(self).workers@.len() ==> #[trigger] final(self).workers@[i] == (
                if old(self).workers@[i].current_job == Some(JobRef::Construction(id)) {
                    Worker { current_job: None, ..old(self).workers@[i] }
                } else {
                    old(self).workers@[i]
                }),
            final(self).settings == old(self).settings,
            final(self).map == old(self).map,
            final(self).money == old(self).money,
            final(self).structures == old(self).structures,
            final(self).blueprints == old(self).blueprints,
            final(self).markers == old(self).markers,
            final(self).next_id == old(self).next_id,
    {
        let mut i: usize = 0;
        while i < self.workers.len()
            invariant
                old(self).wf(),
                0 <= i <= self.workers@.len(),
                self.workers@.len() == old(self).workers@.len(),
                forall|j: int| 0 <= j < self.workers@.len() ==> #[trigger] self.workers@[j] == (
                    if j < i && old(self).workers@[j].current_job == Some(JobRef::Construction(id)) {
                        Worker { current_job: None, ..old(self).workers@[j] }
                    } else {
                        old(self).workers@[j]
                    }),
                self.settings == old(self).settings,
                self.map == old(self).map,
                self.money == old(self).money,
                self.structures == old(self).structures,
                self.blueprints == old(self).blueprints,
                self.markers == old(self).markers,
                self.next_id == old(self).next_id,
            decreases self.workers@.len() - i,
        {
            if self.workers[i].current_job == Some(JobRef::Construction(id)) {
                self.workers[i].current_job = None;
            }
            i = i + 1;
        }
        assert(forall|j: int| 0 <= j < self.workers@.len() ==> (#[trigger] self.workers@[j]).work_priorities.wf()) by {
            assert forall|j: int| 0 <= j < self.workers@.len() implies (#[trigger] self.workers@[j]).work_priorities.wf() by {
                assert(old(self).workers@[j].work_priorities.wf());
            }
        }
    }

    /// Turns every complete blueprint into its finished object: the
    /// blueprint and its job go, the worker holding the job is idle again, a
    /// finished wall, door, window or floor takes its place with a fresh id,
    /// and a finished wall takes over its tile's wall entry. A furniture
    /// blueprint is dropped without an object.
    pub fn complete_blueprints(&mut self)
        requires
            old(self).wf(),
            old(self).next_id + old(self).blueprints@.len() < u64::MAX,
        ensures
            final(self).wf(),
            final(self).blueprints@ == old(self).blueprints@.filter(|b: BlueprintSite| incomplete(b)),
            final(self).structures@ == old(self).structures@ + completions(old(self).blueprints@, old(self).next_id as int),
            final(self).next_id == old(self).next_id + completions(old(self).blueprints@, old(self).next_id as int).len(),
            final(self).map@ == relinks(old(self).map@, completions(old(self).blueprints@, old(self).next_id as int)),
            final(self).workers@.len() == old(self).workers@.len(),
            forall|i: int| 0 <= i < final(self).workers@.len() ==>
                #[trigger] final(self).workers@[i] == freed(old(self).workers@[i], old(self).blueprints@),
            final(self).settings == old(self).settings,
            final(self).money == old(self).money,
            final(self).markers == old(self).markers,
    {
        let ghost b0 = self.blueprints@;
        let ghost n0 = self.next_id as int;
        let mut kept: Vec<BlueprintSite> = Vec::new();
        let mut i: usize = 0;
        while i < self.blueprints.len()
            invariant
                self.wf(),
                self.blueprints@ == b0,
                b0 == old(self).blueprints@,
                n0 == old(self).next_id,
                n0 + b0.len() < u64::MAX,
                0 <= i <= b0.len(),
                kept@ == b0.take(i as int).filter(|b: BlueprintSite| incomplete(b)),
                forall|k: int| 0 <= k < kept@.len() ==> exists|j: int| 0 <= j < b0.len() && b0[j] == #[trigger] kept@[k],
                self.structures@ == old(self).structures@ + completions(b0.take(i as int), n0),
                self.next_id == n0 + completions(b0.take(i as int), n0).len(),
                self.map.width == old(self).map.width,
                self.map.height == old(self).map.height,
                self.map@ == relinks(old(self).map@, completions(b0.take(i as int), n0)),
                self.workers@.len() == old(self).workers@.len(),
                forall|j: int| 0 <= j < self.workers@.len() ==>
                    #[trigger] self.workers@[j] == freed(old(self).workers@[j], b0.take(i as int)),
                self.settings == old(self).settings,
                self.money == old(self).money,
                self.markers == old(self).markers,
            decreases b0.len() - i,
        {
            let b = self.blueprints[i];
            let ghost pre = b0.take(i as int);
            let ghost post = b0.take(i as int + 1);
            proof {
                assert(post =~= pre.push(b));
                assert(post.drop_last() =~= pre);
                pre.lemma_filter_push(b, |b: BlueprintSite| incomplete(b));
                lemma_completions_len(pre, n0);
            }
            if b.blueprint.is_complete() {
                let ghost w_before = self.workers@;
                proof {
                    assert forall|j: int| 0 <= j < self.workers@.len() implies {
                        let w = #[trigger] self.workers@[j];
                        w.current_job == Some(JobRef::Construction(b.id)) ==> completed_id(b0, b.id)
                    } by {
                        assert(b0[i as int].id == b.id);
                    }
                }
                self.free_workers_of(b.id, Ghost(b0));
                proof {
                    assert forall|j: int| 0 <= j < self.workers@.len() implies
                        #[trigger] self.workers@[j] == freed(old(self).workers@[j], post) by {
                        assert(w_before[j] == freed(old(self).workers@[j], pre));
                        assert(post[i as int] == b);
                        if let Some(JobRef::Construction(jid)) = old(self).workers@[j].current_job {
                            if completed_id(pre, jid) {
                                let k = choose|k: int| 0 <= k < pre.len() && (#[trigger] pre[k]).id == jid && complete(pre[k]);
                                assert(post[k] == pre[k]);
                            }
                            if completed_id(post, jid) && !completed_id(pre, jid) {
                                let k = choose|k: int| 0 <= k < post.len() && (#[trigger] post[k]).id == jid && complete(post[k]);
                                if k < i {
                                    assert(pre[k] == post[k]);
                                }
                            }
                        }
                    }
                }
                let kind: Option<StructureKind> = match b.blueprint.building_type {
                    BlueprintType::Wall => Some(StructureKind::Wall),
                    BlueprintType::Door(o) => Some(StructureKind::Door(o)),
                    BlueprintType::Window => Some(StructureKind::Window),
                    BlueprintType::Floor(f) => Some(StructureKind::Floor(f)),
                    BlueprintType::Furniture(_) => None,
                };
                match kind {
                    Some(k) => {
                        let id = self.alloc_id();
                        assert(self.settings.contains(b0[i as int].pos));
                        self.structures.push(Structure { id, kind: k, pos: b.pos });
                        proof {
                            lemma_relinks_domain(old(self).map@, completions(pre, n0));
                        }
                        match k {
                            StructureKind::Wall => {
                                self.map.relink_wall(b.pos, id);
                            },
                            _ => {},
                        }
                        proof {
                            let c = completions(post, n0);
                            assert(c.drop_last() =~= completions(pre, n0));
                            assert(c.last() == Structure { id, kind: k, pos: b.pos });
                            assert(self.structures@ =~= old(self).structures@ + completions(post, n0));
                            assert(self.map@ == relinks(old(self).map@, c));
                        }
                    },
                    None => {},
                }
            } else {
                proof {
                    assert forall|j: int| 0 <= j < self.workers@.len() implies
                        #[trigger] self.workers@[j] == freed(old(self).workers@[j], post) by {
                        assert(self.workers@[j] == freed(old(self).workers@[j], pre));
                        if let Some(JobRef::Construction(jid)) = old(self).workers@[j].current_job {
                            if completed_id(pre, jid) {
                                let k = choose|k: int| 0 <= k < pre.len() && (#[trigger] pre[k]).id == jid && complete(pre[k]);
                                assert(post[k] == pre[k]);
                            }
                            if completed_id(post, jid) {
                                let k = choose|k: int| 0 <= k < post.len() && (#[trigger] post[k]).id == jid && complete(post[k]);
                                assert(k != i);
                                assert(pre[k] == post[k]);
                            }
                        }
                    }
                }
                kept.push(b);
                proof {
                    assert(b0[i as int] == kept@[kept@.len() - 1]);
                }
            }
            i = i + 1;
        }
        proof {
            assert(b0.take(b0.len() as int) =~= b0);
            assert forall|k: int| 0 <= k < kept@.len() implies (#[trigger] kept@[k]).blueprint.wf() && self.settings.contains(kept@[k].pos) by {
                let j = choose|j: int| 0 <= j < b0.len() && b0[j] == kept@[k];
                assert(old(self).blueprints@[j] == b0[j]);
            }
        }
        self.blueprints = kept;
    }

    /// One simulation step of `dt_ms` milliseconds, in the fixed phase order:
    /// construction, deconstruction and staffing assignment, work, then
    /// completion of blueprints and of deconstruction.
    pub fn tick(&mut self, dt_ms: u64)
        requires
            old(self).wf(),
            dt_ms <= MAX_STEP_MS,
            old(self).next_id + old(self).blueprints@.len() < u64::MAX,
        ensures
            final(self).wf(),
            final(self).settings == old(self).settings,
            final(self).money == old(self).money,
            final(self).workers@.len() == old(self).workers@.len(),
            old(self).next_id <= final(self).next_id <= old(self).next_id + old(self).blueprints@.len(),
            forall|k: int| 0 <= k < final(self).blueprints@.len() ==> incomplete(#[trigger] final(self).blueprints@[k]),
            forall|k: int| 0 <= k < final(self).markers@.len()
                ==> crate::deconstruction::marker_incomplete(#[trigger] final(self).markers@[k]),
            final(self).blueprints@.len() <= old(self).blueprints@.len(),
            final(self).markers@.len() <= old(self).markers@.len(),
    {
        self.assign_jobs_to_pawns();
        self.assign_deconstruction_jobs_to_pawns();
        self.assign_reception_staff();
        self.work_step(dt_ms);
        let ghost before = self.blueprints@;
        let ghost n = self.next_id as int;
        self.complete_blueprints();
        proof {
            lemma_completions_len(before, n);
            assert forall|k: int| 0 <= k < self.blueprints@.len() implies incomplete(#[trigger] self.blueprints@[k]) by {
                before.lemma_filter_pred(|b: BlueprintSite| incomplete(b), k);
            }
            before.lemma_filter_len(|b: BlueprintSite| incomplete(b));
        }
        let ghost mk = self.markers@;
        self.complete_deconstruction();
        proof {
            assert forall|k: int| 0 <= k < self.markers@.len() implies crate::deconstruction::marker_incomplete(#[trigger] self.markers@[k]) by {
                mk.lemma_filter_pred(|m: MarkerSite| crate::deconstruction::marker_incomplete(m), k);
            }
            mk.lemma_filter_len(|m: MarkerSite| crate::deconstruction::marker_incomplete(m));
        }
    }

    /// A door at `p` stands open while some worker is near it, else closed.
    pub fn door_state_at(&self, p: GridPosition) -> (r: DoorState)
        requires
            self.wf(),
            self.settings.contains(p),
        ensures
            r == if exists|i: int| 0 <= i < self.workers@.len() && near_door(self.settings, (#[trigger] self.workers@[i]).position, p) {
                DoorState::Open
            } else {
                DoorState::Closed
            },
    {
        let target = grid_to_world(p, self.settings.tile_size, self.settings.width, self.settings.height);
        let radius: u128 = (DOOR_OPEN_TILES as u128) * (self.settings.tile_size as u128);
        assert(radius * radius <= 4096 * 4096) by (nonlinear_arith)
            requires radius <= 4096;
        let mut i: usize = 0;
        while i < self.workers.len()
            invariant
                0 <= i <= self.workers@.len(),
                radius == DOOR_OPEN_TILES * self.settings.tile_size,
                radius * radius <= 4096 * 4096,
                target == world_of(self.settings, p),
                forall|j: int| 0 <= j < i ==> !near_door(self.settings, (#[trigger] self.workers@[j]).position, p),
            decreases self.workers@.len() - i,
        {
            if distance_squared(self.workers[i].position, target) < radius * radius {
                assert(near_door(self.settings, self.workers@[i as int].position, p));
                return DoorState::Open;
            }
            i = i + 1;
        }
        DoorState::Closed
    }
}

} // verus!
