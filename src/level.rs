//! The state of one level: its ledger, the objects on it, the work in
//! progress and the workers.
use vstd::prelude::*;
use crate::grid::{GridPosition, GridSettings, WorldPos};
use crate::building::{DoorOrientation, FloorType};
use crate::furniture::{FurnitureOrientation, FurnitureType};
use crate::occupancy::BuildingMap;
use crate::jobs::{Blueprint, ConstructionJob, DeconstructionJob, DeconstructionMarker};
use crate::work::WorkAssignments;
use crate::economy::Money;

verus! {

/// A finished object standing on the grid.
#[derive(Debug, Clone, Copy, PartialEq, Eq, Structural)]
pub enum StructureKind {
    Wall,
    Door(DoorOrientation),
    Window,
    Floor(FloorType),
    Furniture(FurnitureType, FurnitureOrientation),
}

#[derive(Debug, Clone, Copy, PartialEq, Eq, Structural)]
pub struct Structure {
    pub id: u64,
    pub kind: StructureKind,
    pub pos: GridPosition,
}

/// A blueprint on the grid together with its construction job.
#[derive(Debug, Clone, Copy, PartialEq, Eq, Structural)]
pub struct BlueprintSite {
    pub id: u64,
    pub pos: GridPosition,
    pub blueprint: Blueprint,
    pub job: ConstructionJob,
}

/// A deconstruction marker on the grid together with its job.
#[derive(Debug, Clone, Copy, PartialEq, Eq, Structural)]
pub struct MarkerSite {
    pub id: u64,
    pub pos: GridPosition,
    pub marker: DeconstructionMarker,
    pub job: DeconstructionJob,
}

/// A job a worker holds: the construction job of a blueprint, or the
/// deconstruction job of a marker, by the blueprint's or marker's id.
#[derive(Debug, Clone, Copy, PartialEq, Eq, Structural)]
pub enum JobRef {
    Construction(u64),
    Deconstruction(u64),
}

#[derive(Debug, Clone, Copy, PartialEq, Eq, Structural)]
pub struct Worker {
    pub id: u64,
    pub position: WorldPos,
    pub current_job: Option<JobRef>,
    pub work_priorities: WorkAssignments,
    pub movement_target: Option<WorldPos>,
    /// The reception console the worker staffs.
    pub staffing: Option<u64>,
}

pub struct Level {
    pub settings: GridSettings,
    pub map: BuildingMap,
    pub money: Money,
    pub structures: Vec<Structure>,
    pub blueprints: Vec<BlueprintSite>,
    pub markers: Vec<MarkerSite>,
    pub workers: Vec<Worker>,
    pub next_id: u64,
}

/// Whether `id` is one of the two given ids.
pub open spec fn hit(a: Option<u64>, b: Option<u64>, id: u64) -> bool {
    a == Some(id) || b == Some(id)
}

/// A worker whose construction job was removed along with its blueprint.
pub open spec fn released(w: Worker, a: Option<u64>, b: Option<u64>) -> Worker {
    match w.current_job {
        Some(JobRef::Construction(j)) => if hit(a, b, j) { Worker { current_job: None, ..w } } else { w },
        _ => w,
    }
}

impl Level {
    pub open spec fn wf(&self) -> bool {
        &&& self.settings.wf()
        &&& self.map.wf()
        &&& self.map.width == self.settings.width
        &&& self.map.height == self.settings.height
        &&& forall|i: int| 0 <= i < self.blueprints@.len() ==> {
            &&& (#[trigger] self.blueprints@[i]).blueprint.wf()
            &&& self.settings.contains(self.blueprints@[i].pos)
        }
        &&& forall|i: int| 0 <= i < self.markers@.len() ==> {
            &&& (#[trigger] self.markers@[i]).marker.wf()
            &&& self.settings.contains(self.markers@[i].pos)
        }
        &&& forall|i: int| 0 <= i < self.workers@.len() ==> (#[trigger] self.workers@[i]).work_priorities.wf()
        &&& forall|i: int| 0 <= i < self.structures@.len() ==> self.settings.contains((#[trigger] self.structures@[i]).pos)
    }

    /// An empty level on a grid of the given settings.
    pub fn new(settings: GridSettings, money: Money) -> (r: Level)
        requires
            settings.wf(),
        ensures
            r.wf(),
            r.settings == settings,
            r.money == money,
            forall|p: GridPosition| #[trigger] r.map.holds(p) == settings.contains(p),
            forall|p: GridPosition| r.map.holds(p) ==> #[trigger] r.map@[p] == crate::occupancy::empty_tile(),
            r.structures@.len() == 0,
            r.blueprints@.len() == 0,
            r.markers@.len() == 0,
            r.workers@.len() == 0,
            r.next_id == 0,
    {
        Level {
            settings,
            map: BuildingMap::new(settings.width, settings.height),
            money,
            structures: Vec::new(),
            blueprints: Vec::new(),
            markers: Vec::new(),
            workers: Vec::new(),
            next_id: 0,
        }
    }

    /// A fresh object id.
    pub fn alloc_id(&mut self) -> (r: u64)
        requires
            old(self).next_id < u64::MAX,
        ensures
            r == old(self).next_id,
            final(self).next_id == old(self).next_id + 1,
            final(self).settings == old(self).settings,
            final(self).map == old(self).map,
            final(self).money == old(self).money,
            final(self).structures == old(self).structures,
            final(self).blueprints == old(self).blueprints,
            final(self).markers == old(self).markers,
            final(self).workers == old(self).workers,
    {
        let id = self.next_id;
        self.next_id = self.next_id + 1;
        id
    }

    /// Adds a worker with default priorities at `position`; returns its id.
    pub fn spawn_worker(&mut self, position: WorldPos) -> (r: u64)
        requires
            old(self).wf(),
            old(self).next_id < u64::MAX,
        ensures
            final(self).wf(),
            r == old(self).next_id,
            final(self).next_id == old(self).next_id + 1,
            final(self).workers@ == old(self).workers@.push(Worker {
                id: r,
                position,
                current_job: None,
                work_priorities: WorkAssignments::default_spec(),
                movement_target: None,
                staffing: None,
            }),
            final(self).settings == old(self).settings,
            final(self).map == old(self).map,
            final(self).money == old(self).money,
            final(self).structures == old(self).structures,
            final(self).blueprints == old(self).blueprints,
            final(self).markers == old(self).markers,
    {
        let id = self.alloc_id();
        let w = Worker {
            id,
            position,
            current_job: None,
            work_priorities: WorkAssignments::default(),
            movement_target: None,
            staffing: None,
        };
        self.workers.push(w);
        id
    }

    /// Removes the objects with id `id`; nothing else changes.
    pub fn remove_structure(&mut self, id: u64)
        requires
            old(self).wf(),
        ensures
            final(self).wf(),
            final(self).structures@ == old(self).structures@.filter(|s: Structure| !hit(Some(id), None, s.id)),
            final(self).settings == old(self).settings,
            final(self).map == old(self).map,
            final(self).money == old(self).money,
            final(self).blueprints == old(self).blueprints,
            final(self).markers == old(self).markers,
            final(self).workers == old(self).workers,
            final(self).next_id == old(self).next_id,
    {
        let ghost s0 = self.structures@;
        let mut kept: Vec<Structure> = Vec::new();
        let mut i: usize = 0;
        while i < self.structures.len()
            invariant
                self.structures@ == s0,
                0 <= i <= s0.len(),
                kept@ == s0.take(i as int).filter(|s: Structure| !hit(Some(id), None, s.id)),
                forall|k: int| 0 <= k < kept@.len() ==> exists|j: int| 0 <= j < s0.len() && s0[j] == #[trigger] kept@[k],
            decreases s0.len() - i,
        {
            let s = self.structures[i];
            proof {
                assert(s0.take(i as int + 1) =~= s0.take(i as int).push(s));
                s0.take(i as int).lemma_filter_push(s, |s: Structure| !hit(Some(id), None, s.id));
            }
            if s.id != id {
                kept.push(s);
                proof {
                    assert(s0[i as int] == kept@[kept@.len() - 1]);
                }
            }
            i = i + 1;
        }
        proof {
            assert(s0.take(s0.len() as int) =~= s0);
            assert forall|k: int| 0 <= k < kept@.len() implies self.settings.contains((#[trigger] kept@[k]).pos) by {
                let j = choose|j: int| 0 <= j < s0.len() && s0[j] == kept@[k];
                assert(old(self).structures@[j] == s0[j]);
            }
        }
        self.structures = kept;
    }

    /// Removes the objects with either id, and the jobs of removed
    /// blueprints from the workers that held them.
    pub fn remove_objects(&mut self, a: Option<u64>, b: Option<u64>)
        requires
            old(self).wf(),
        ensures
            final(self).wf(),
            final(self).structures@ == old(self).structures@.filter(|s: Structure| !hit(a, b, s.id)),
            final(self).blueprints@ == old(self).blueprints@.filter(|s: BlueprintSite| !hit(a, b, s.id)),
            final(self).workers@.len() == old(self).workers@.len(),
            forall|i: int| 0 <= i < final(self).workers@.len() ==>
                #[trigger] final(self).workers@[i] == released(old(self).workers@[i], a, b),
            final(self).settings == old(self).settings,
            final(self).map == old(self).map,
            final(self).money == old(self).money,
            final(self).markers == old(self).markers,
            final(self).next_id == old(self).next_id,
    {
        let ghost s0 = self.structures@;
        let mut kept: Vec<Structure> = Vec::new();
        let mut i: usize = 0;
        while i < self.structures.len()
            invariant
                self.structures@ == s0,
                0 <= i <= s0.len(),
                kept@ == s0.take(i as int).filter(|s: Structure| !hit(a, b, s.id)),
                forall|k: int| 0 <= k < kept@.len() ==> exists|j: int| 0 <= j < s0.len() && s0[j] == #[trigger] kept@[k],
            decreases s0.len() - i,
        {
            let s = self.structures[i];
            proof {
                assert(s0.take(i as int + 1) =~= s0.take(i as int).push(s));
                s0.take(i as int).lemma_filter_push(s, |s: Structure| !hit(a, b, s.id));
            }
            if !((a.is_some() && a.unwrap() == s.id) || (b.is_some() && b.unwrap() == s.id)) {
                kept.push(s);
                proof {
                    assert(s0[i as int] == kept@[kept@.len() - 1]);
                }
            }
            i = i + 1;
        }
        proof { assert(s0.take(s0.len() as int) =~= s0); }
        self.structures = kept;

        let ghost b0 = self.blueprints@;
        let mut kept_b: Vec<BlueprintSite> = Vec::new();
        let mut i: usize = 0;
        while i < self.blueprints.len()
            invariant
                self.blueprints@ == b0,
                0 <= i <= b0.len(),
                kept_b@ == b0.take(i as int).filter(|s: BlueprintSite| !hit(a, b, s.id)),
                forall|k: int| 0 <= k < kept_b@.len() ==> exists|j: int| 0 <= j < b0.len() && b0[j] == #[trigger] kept_b@[k],
            decreases b0.len() - i,
        {
            let s = self.blueprints[i];
            proof {
                assert(b0.take(i as int + 1) =~= b0.take(i as int).push(s));
                b0.take(i as int).lemma_filter_push(s, |s: BlueprintSite| !hit(a, b, s.id));
            }
            if !((a.is_some() && a.unwrap() == s.id) || (b.is_some() && b.unwrap() == s.id)) {
                kept_b.push(s);
                proof {
                    assert(b0[i as int] == kept_b@[kept_b@.len() - 1]);
                }
            }
            i = i + 1;
        }
        proof { assert(b0.take(b0.len() as int) =~= b0); }
        self.blueprints = kept_b;

        let ghost w0 = self.workers@;
        let ghost done_s = self.structures@;
        let ghost done_b = self.blueprints@;
        assert(done_s == old(self).structures@.filter(|s: Structure| !hit(a, b, s.id)));
        assert(done_b == old(self).blueprints@.filter(|s: BlueprintSite| !hit(a, b, s.id)));
        assert(forall|k: int| 0 <= k < done_b.len() ==> (#[trigger] done_b[k]).blueprint.wf() && self.settings.contains(done_b[k].pos)) by {
            assert forall|k: int| 0 <= k < done_b.len() implies (#[trigger] done_b[k]).blueprint.wf() && self.settings.contains(done_b[k].pos) by {
                let j = choose|j: int| 0 <= j < b0.len() && b0[j] == done_b[k];
                assert(old(self).blueprints@[j] == b0[j]);
            }
        }
        assert(forall|k: int| 0 <= k < done_s.len() ==> self.settings.contains((#[trigger] done_s[k]).pos)) by {
            assert forall|k: int| 0 <= k < done_s.len() implies self.settings.contains((#[trigger] done_s[k]).pos) by {
                let j = choose|j: int| 0 <= j < s0.len() && s0[j] == done_s[k];
                assert(old(self).structures@[j] == s0[j]);
            }
        }
        let mut i: usize = 0;
        while i < self.workers.len()
            invariant
                self.structures@ == done_s,
                forall|k: int| 0 <= k < done_s.len() ==> self.settings.contains((#[trigger] done_s[k]).pos),
                self.blueprints@ == done_b,
                self.settings == old(self).settings,
                self.map == old(self).map,
                self.money == old(self).money,
                self.markers == old(self).markers,
                self.next_id == old(self).next_id,
                w0 == old(self).workers@,
                forall|k: int| 0 <= k < w0.len() ==> (#[trigger] w0[k]).work_priorities.wf(),
                self.workers@.len() == w0.len(),
                0 <= i <= w0.len(),
                forall|k: int| 0 <= k < i ==> #[trigger] self.workers@[k] == released(w0[k], a, b),
                forall|k: int| i <= k < w0.len() ==> #[trigger] self.workers@[k] == w0[k],
            decreases w0.len() - i,
        {
            match self.workers[i].current_job {
                Some(JobRef::Construction(j)) => {
                    if (a.is_some() && a.unwrap() == j) || (b.is_some() && b.unwrap() == j) {
                        self.workers[i].current_job = None;
                    }
                },
                _ => {},
            }
            i = i + 1;
        }
    }
}

} // verus!
