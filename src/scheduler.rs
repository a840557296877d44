//! Matching idle workers to jobs: nearest open construction job, nearest
//! open deconstruction job, then one worker for each unstaffed reception console.
use vstd::prelude::*;
use crate::grid::{GridPosition, GridSettings, WorldPos, centre_of, dist2, distance_squared, grid_to_world};
use crate::furniture::FurnitureType;
use crate::work::WorkType;
use crate::level::{Level, Worker, JobRef, BlueprintSite, MarkerSite, StructureKind};

verus! {

/// World position of the centre of a tile.
pub open spec fn world_of(s: GridSettings, p: GridPosition) -> WorldPos {
    WorldPos {
        x: centre_of(p.x as int, s.tile_size as int, s.width as int) as i32,
        y: centre_of(p.y as int, s.tile_size as int, s.height as int) as i32,
    }
}

pub open spec fn idle(w: Worker) -> bool {
    w.current_job.is_none()
}

pub open spec fn open_site(b: BlueprintSite) -> bool {
    b.job.assigned_pawn.is_none()
}

pub open spec fn open_marker(m: MarkerSite) -> bool {
    m.job.assigned_pawn.is_none()
}

pub open spec fn is_console(k: StructureKind) -> bool {
    k matches StructureKind::Furniture(FurnitureType::ReceptionConsole, _)
}

/// One step of the construction pass, for worker `wi`: an idle worker
/// enabled for construction takes the nearest open construction job (the
/// first on a tie) and is sent to it; otherwise nothing changes.
pub open spec fn construction_step(pre: Level, post: Level, wi: int) -> bool {
    if !(pre.can_build(wi) && pre.any_open_site()) {
        post == pre
    } else {
        exists|k: int| #![trigger pre.blueprints@[k]] {
            let w = pre.workers@[wi];
            let b = pre.blueprints@[k];
            &&& pre.nearest_open_site(w.position, k)
            &&& post.blueprints@ == pre.blueprints@.update(
                k,
                BlueprintSite { job: crate::jobs::ConstructionJob { assigned_pawn: Some(w.id), ..b.job }, ..b },
            )
            &&& post.workers@ == pre.workers@.update(
                wi,
                Worker {
                    current_job: Some(JobRef::Construction(b.id)),
                    movement_target: Some(world_of(pre.settings, b.pos)),
                    ..w
                },
            )
            &&& post.settings == pre.settings
            &&& post.map == pre.map
            &&& post.money == pre.money
            &&& post.structures == pre.structures
            &&& post.markers == pre.markers
            &&& post.next_id == pre.next_id
        }
    }
}

/// One step of the deconstruction pass, for worker `wi`, as for construction.
pub open spec fn deconstruction_step(pre: Level, post: Level, wi: int) -> bool {
    if !(pre.can_build(wi) && pre.any_open_marker()) {
        post == pre
    } else {
        exists|k: int| #![trigger pre.markers@[k]] {
            let w = pre.workers@[wi];
            let m = pre.markers@[k];
            &&& pre.nearest_open_marker(w.position, k)
            &&& post.markers@ == pre.markers@.update(
                k,
                MarkerSite { job: crate::jobs::DeconstructionJob { assigned_pawn: Some(w.id), ..m.job }, ..m },
            )
            &&& post.workers@ == pre.workers@.update(
                wi,
                Worker {
                    current_job: Some(JobRef::Deconstruction(m.id)),
                    movement_target: Some(world_of(pre.settings, m.pos)),
                    ..w
                },
            )
            &&& post.settings == pre.settings
            &&& post.map == pre.map
            &&& post.money == pre.money
            &&& post.structures == pre.structures
            &&& post.blueprints == pre.blueprints
            &&& post.next_id == pre.next_id
        }
    }
}

/// One step of the staffing pass, for object `c`: a reception console that
/// nobody staffs gets the first worker that is idle, staffs nothing and is
/// enabled for reception, sent to the console; otherwise nothing changes.
pub open spec fn staffing_step(pre: Level, post: Level, c: int) -> bool {
    let s = pre.structures@[c];
    if !(is_console(s.kind) && !pre.staffed(s.id)
        && exists|i: int| 0 <= i < pre.workers@.len() && #[trigger] pre.can_staff(i)) {
        post == pre
    } else {
        exists|i: int| #![trigger pre.workers@[i]] {
            &&& 0 <= i < pre.workers@.len()
            &&& pre.can_staff(i)
            &&& forall|j: int| 0 <= j < i ==> !#[trigger] pre.can_staff(j)
            &&& post.workers@ == pre.workers@.update(
                i,
                Worker { staffing: Some(s.id), movement_target: Some(world_of(pre.settings, s.pos)), ..pre.workers@[i] },
            )
            &&& post.settings == pre.settings
            &&& post.map == pre.map
            &&& post.money == pre.money
            &&& post.structures == pre.structures
            &&& post.blueprints == pre.blueprints
            &&& post.markers == pre.markers
            &&& post.next_id == pre.next_id
        }
    }
}

impl Level {
    /// `k` is the open construction job nearest to `from`; the first such on a tie.
    pub open spec fn nearest_open_site(&self, from: WorldPos, k: int) -> bool {
        let bs = self.blueprints@;
        &&& 0 <= k < bs.len()
        &&& open_site(bs[k])
        &&& forall|j: int| 0 <= j < bs.len() && open_site(#[trigger] bs[j]) ==>
            dist2(from, world_of(self.settings, bs[k].pos)) <= dist2(from, world_of(self.settings, bs[j].pos))
        &&& forall|j: int| 0 <= j < k && open_site(#[trigger] bs[j]) ==>
            dist2(from, world_of(self.settings, bs[k].pos)) < dist2(from, world_of(self.settings, bs[j].pos))
    }

    pub open spec fn nearest_open_marker(&self, from: WorldPos, k: int) -> bool {
        let ms = self.markers@;
        &&& 0 <= k < ms.len()
        &&& open_marker(ms[k])
        &&& forall|j: int| 0 <= j < ms.len() && open_marker(#[trigger] ms[j]) ==>
            dist2(from, world_of(self.settings, ms[k].pos)) <= dist2(from, world_of(self.settings, ms[j].pos))
        &&& forall|j: int| 0 <= j < k && open_marker(#[trigger] ms[j]) ==>
            dist2(from, world_of(self.settings, ms[k].pos)) < dist2(from, world_of(self.settings, ms[j].pos))
    }

    pub open spec fn any_open_site(&self) -> bool {
        exists|j: int| 0 <= j < self.blueprints@.len() && open_site(#[trigger] self.blueprints@[j])
    }

    pub open spec fn any_open_marker(&self) -> bool {
        exists|j: int| 0 <= j < self.markers@.len() && open_marker(#[trigger] self.markers@[j])
    }

    pub open spec fn can_build(&self, wi: int) -> bool {
        idle(self.workers@[wi]) && self.workers@[wi].work_priorities.enabled(WorkType::Construction)
    }

    pub open spec fn staffed(&self, console: u64) -> bool {
        exists|i: int| 0 <= i < self.workers@.len() && (#[trigger] self.workers@[i]).staffing == Some(console)
    }

    pub open spec fn can_staff(&self, wi: int) -> bool {
        let w = self.workers@[wi];
        idle(w) && w.staffing.is_none() && w.work_priorities.enabled(WorkType::Reception)
    }

    /// The index of the open construction job nearest to `from`, if any.
    pub fn find_nearest_open_site(&self, from: WorldPos) -> (r: Option<usize>)
        requires
            self.wf(),
        ensures
            r matches Some(k) ==> self.nearest_open_site(from, k as int),
            r.is_none() ==> !self.any_open_site(),
    {
        let mut best: Option<(usize, u128)> = None;
        let mut i: usize = 0;
        while i < self.blueprints.len()
            invariant
                self.wf(),
                0 <= i <= self.blueprints@.len(),
                match best {
                    None => forall|j: int| 0 <= j < i ==> !open_site(#[trigger] self.blueprints@[j]),
                    Some((k, d)) => {
                        &&& 0 <= k < i
                        &&& open_site(self.blueprints@[k as int])
                        &&& d == dist2(from, world_of(self.settings, self.blueprints@[k as int].pos))
                        &&& forall|j: int| 0 <= j < i && open_site(#[trigger] self.blueprints@[j]) ==>
                            d <= dist2(from, world_of(self.settings, self.blueprints@[j].pos))
                        &&& forall|j: int| 0 <= j < k && open_site(#[trigger] self.blueprints@[j]) ==>
                            d < dist2(from, world_of(self.settings, self.blueprints@[j].pos))
                    },
                },
            decreases self.blueprints@.len() - i,
        {
            let site = self.blueprints[i];
            if site.job.assigned_pawn.is_none() {
                let target = grid_to_world(site.pos, self.settings.tile_size, self.settings.width, self.settings.height);
                let d = distance_squared(from, target);
                match best {
                    None => { best = Some((i, d)); },
                    Some((_, bd)) => {
                        if d < bd {
                            best = Some((i, d));
                        }
                    },
                }
            }
            i = i + 1;
        }
        match best {
            None => None,
            Some((k, _)) => Some(k),
        }
    }

    /// The index of the open deconstruction job nearest to `from`, if any.
    pub fn find_nearest_open_marker(&self, from: WorldPos) -> (r: Option<usize>)
        requires
            self.wf(),
        ensures
            r matches Some(k) ==> self.nearest_open_marker(from, k as int),
            r.is_none() ==> !self.any_open_marker(),
    {
        let mut best: Option<(usize, u128)> = None;
        let mut i: usize = 0;
        while i < self.markers.len()
            invariant
                self.wf(),
                0 <= i <= self.markers@.len(),
                match best {
                    None => forall|j: int| 0 <= j < i ==> !open_marker(#[trigger] self.markers@[j]),
                    Some((k, d)) => {
                        &&& 0 <= k < i
                        &&& open_marker(self.markers@[k as int])
                        &&& d == dist2(from, world_of(self.settings, self.markers@[k as int].pos))
                        &&& forall|j: int| 0 <= j < i && open_marker(#[trigger] self.markers@[j]) ==>
                            d <= dist2(from, world_of(self.settings, self.markers@[j].pos))
                        &&& forall|j: int| 0 <= j < k && open_marker(#[trigger] self.markers@[j]) ==>
                            d < dist2(from, world_of(self.settings, self.markers@[j].pos))
                    },
                },
            decreases self.markers@.len() - i,
        {
            let site = self.markers[i];
            if site.job.assigned_pawn.is_none() {
                let target = grid_to_world(site.pos, self.settings.tile_size, self.settings.width, self.settings.height);
                let d = distance_squared(from, target);
                match best {
                    None => { best = Some((i, d)); },
                    Some((_, bd)) => {
                        if d < bd {
                            best = Some((i, d));
                        }
                    },
                }
            }
            i = i + 1;
        }
        match best {
            None => None,
            Some((k, _)) => Some(k),
        }
    }

    /// Gives worker `wi`, if idle and enabled for construction, the nearest
    /// open construction job, and sends it there.
    pub fn assign_construction_to(&mut self, wi: usize) -> (r: Option<usize>)
        requires
            old(self).wf(),
            wi < old(self).workers@.len(),
        ensures
            final(self).wf(),
            construction_step(*old(self), *final(self), wi as int),
            r.is_none() <==> !(old(self).can_build(wi as int) && old(self).any_open_site()),
            r.is_none() ==> *final(self) == *old(self),
            r matches Some(k) ==> {
                let w = old(self).workers@[wi as int];
                let b = old(self).blueprints@[k as int];
                &&& k < old(self).blueprints@.len()
                &&& old(self).nearest_open_site(w.position, k as int)
                &&& final(self).blueprints@ == old(self).blueprints@.update(
                    k as int,
                    BlueprintSite { job: crate::jobs::ConstructionJob { assigned_pawn: Some(w.id), ..b.job }, ..b },
                )
                &&& final(self).workers@ == old(self).workers@.update(
                    wi as int,
                    Worker {
                        current_job: Some(JobRef::Construction(b.id)),
                        movement_target: Some(world_of(old(self).settings, b.pos)),
                        ..w
                    },
                )
                &&& final(self).settings == old(self).settings
                &&& final(self).map == old(self).map
                &&& final(self).money == old(self).money
                &&& final(self).structures == old(self).structures
                &&& final(self).markers == old(self).markers
                &&& final(self).next_id == old(self).next_id
            },
    {
        let w = self.workers[wi];
        if w.current_job.is_some() || !w.work_priorities.can_do_work(WorkType::Construction) {
            return None;
        }
        match self.find_nearest_open_site(w.position) {
            None => None,
            Some(k) => {
                let b = self.blueprints[k];
                let target = grid_to_world(b.pos, self.settings.tile_size, self.settings.width, self.settings.height);
                self.blueprints[k].job.assigned_pawn = Some(w.id);
                self.workers[wi].current_job = Some(JobRef::Construction(b.id));
                self.workers[wi].movement_target = Some(target);
                proof {
                    assert(self.blueprints@ =~= old(self).blueprints@.update(
                        k as int,
                        BlueprintSite { job: crate::jobs::ConstructionJob { assigned_pawn: Some(w.id), ..b.job }, ..b },
                    ));
                    assert(self.workers@ =~= old(self).workers@.update(
                        wi as int,
                        Worker {
                            current_job: Some(JobRef::Construction(b.id)),
                            movement_target: Some(world_of(old(self).settings, b.pos)),
                            ..w
                        },
                    ));
                    assert(forall|i: int| 0 <= i < self.workers@.len() ==> (#[trigger] self.workers@[i]).work_priorities.wf());
                    assert(forall|i: int| 0 <= i < self.blueprints@.len() ==> (#[trigger] self.blueprints@[i]).blueprint.wf());
                    assert(old(self).nearest_open_site(w.position, k as int));
                    assert(old(self).blueprints@[k as int] == b);
                }
                Some(k)
            },
        }
    }

    /// Gives worker `wi`, if idle and enabled for construction, the nearest
    /// open deconstruction job, and sends it there.
    pub fn assign_deconstruction_to(&mut self, wi: usize) -> (r: Option<usize>)
        requires
            old(self).wf(),
            wi < old(self).workers@.len(),
        ensures
            final(self).wf(),
            deconstruction_step(*old(self), *final(self), wi as int),
            r.is_none() <==> !(old(self).can_build(wi as int) && old(self).any_open_marker()),
            r.is_none() ==> *final(self) == *old(self),
            r matches Some(k) ==> {
                let w = old(self).workers@[wi as int];
                let m = old(self).markers@[k as int];
                &&& k < old(self).markers@.len()
                &&& old(self).nearest_open_marker(w.position, k as int)
                &&& final(self).markers@ == old(self).markers@.update(
                    k as int,
                    MarkerSite { job: crate::jobs::DeconstructionJob { assigned_pawn: Some(w.id), ..m.job }, ..m },
                )
                &&& final(self).workers@ == old(self).workers@.update(
                    wi as int,
                    Worker {
                        current_job: Some(JobRef::Deconstruction(m.id)),
                        movement_target: Some(world_of(old(self).settings, m.pos)),
                        ..w
                    },
                )
                &&& final(self).settings == old(self).settings
                &&& final(self).map == old(self).map
                &&& final(self).money == old(self).money
                &&& final(self).structures == old(self).structures
                &&& final(self).blueprints == old(self).blueprints
                &&& final(self).next_id == old(self).next_id
            },
    {
        let w = self.workers[wi];
        if w.current_job.is_some() || !w.work_priorities.can_do_work(WorkType::Construction) {
            return None;
        }
        match self.find_nearest_open_marker(w.position) {
            None => None,
            Some(k) => {
                let m = self.markers[k];
                let target = grid_to_world(m.pos, self.settings.tile_size, self.settings.width, self.settings.height);
                self.markers[k].job.assigned_pawn = Some(w.id);
                self.workers[wi].current_job = Some(JobRef::Deconstruction(m.id));
                self.workers[wi].movement_target = Some(target);
                proof {
                    assert(self.markers@ =~= old(self).markers@.update(
                        k as int,
                        MarkerSite { job: crate::jobs::DeconstructionJob { assigned_pawn: Some(w.id), ..m.job }, ..m },
                    ));
                    assert(self.workers@ =~= old(self).workers@.update(
                        wi as int,
                        Worker {
                            current_job: Some(JobRef::Deconstruction(m.id)),
                            movement_target: Some(world_of(old(self).settings, m.pos)),
                            ..w
                        },
                    ));
                    assert(forall|i: int| 0 <= i < self.workers@.len() ==> (#[trigger] self.workers@[i]).work_priorities.wf());
                    assert(forall|i: int| 0 <= i < self.markers@.len() ==> (#[trigger] self.markers@[i]).marker.wf());
                    assert(old(self).nearest_open_marker(w.position, k as int));
                    assert(old(self).markers@[k as int] == m);
                }
                Some(k)
            },
        }
    }

    /// The construction pass: each idle worker enabled for construction, in
    /// order, takes the nearest job still open. Afterwards no idle enabled
    /// worker is left while an open job remains; busy workers and taken jobs
    /// are untouched.
    pub fn assign_jobs_to_pawns(&mut self)
        requires
            old(self).wf(),
        ensures
            exists|ss: Seq<Level>| ss.len() == old(self).workers@.len() + 1 && ss[0] == *old(self)
                && ss[old(self).workers@.len() as int] == *final(self)
                && forall|i: int| 0 <= i < old(self).workers@.len() ==> #[trigger] construction_step(ss[i], ss[i + 1], i),
            final(self).wf(),
            final(self).workers@.len() == old(self).workers@.len(),
            final(self).blueprints@.len() == old(self).blueprints@.len(),
            forall|i: int| 0 <= i < old(self).workers@.len() && !idle(old(self).workers@[i]) ==>
                #[trigger] final(self).workers@[i] == old(self).workers@[i],
            forall|k: int| 0 <= k < old(self).blueprints@.len() && !open_site(old(self).blueprints@[k]) ==>
                #[trigger] final(self).blueprints@[k] == old(self).blueprints@[k],
            forall|i: int| 0 <= i < final(self).workers@.len() && #[trigger] final(self).can_build(i) ==>
                !final(self).any_open_site(),
            final(self).settings == old(self).settings,
            final(self).map == old(self).map,
            final(self).money == old(self).money,
            final(self).structures == old(self).structures,
            final(self).markers == old(self).markers,
            final(self).next_id == old(self).next_id,
    {
        let ghost mut ss: Seq<Level> = seq![*self];
        let mut wi: usize = 0;
        while wi < self.workers.len()
            invariant
                ss.len() == wi + 1,
                ss[0] == *old(self),
                ss[wi as int] == *self,
                forall|i: int| 0 <= i < wi ==> #[trigger] construction_step(ss[i], ss[i + 1], i),
                self.wf(),
                0 <= wi <= self.workers@.len(),
                self.workers@.len() == old(self).workers@.len(),
                self.blueprints@.len() == old(self).blueprints@.len(),
                forall|i: int| 0 <= i < old(self).workers@.len() && !idle(old(self).workers@[i]) ==>
                    #[trigger] self.workers@[i] == old(self).workers@[i],
                forall|k: int| 0 <= k < old(self).blueprints@.len() && !open_site(old(self).blueprints@[k]) ==>
                    #[trigger] self.blueprints@[k] == old(self).blueprints@[k],
                forall|i: int| 0 <= i < wi && #[trigger] self.can_build(i) ==> !self.any_open_site(),
                self.settings == old(self).settings,
                self.map == old(self).map,
                self.money == old(self).money,
                self.structures == old(self).structures,
                self.markers == old(self).markers,
                self.next_id == old(self).next_id,
            decreases self.workers@.len() - wi,
        {
            let ghost before = *self;
            let r = self.assign_construction_to(wi);
            proof {
                let ghost prev = ss;
                ss = ss.push(*self);
                assert forall|q: int| 0 <= q < wi + 1 implies #[trigger] construction_step(ss[q], ss[q + 1], q) by {
                    if q < wi {
                        assert(ss[q] == prev[q] && ss[q + 1] == prev[q + 1]);
                    }
                }
            }
            proof {
                if let Some(k) = r {
                    assert forall|i: int| 0 <= i < wi + 1 && #[trigger] self.can_build(i) implies !self.any_open_site() by {
                        if i < wi {
                            assert(before.can_build(i));
                            assert(!before.any_open_site());
                            assert(open_site(self.blueprints@[k as int]) ==> open_site(before.blueprints@[k as int]));
                            assert(!open_site(before.blueprints@[k as int]));
                        }
                    }
                    assert forall|i: int| 0 <= i < old(self).workers@.len() && !idle(old(self).workers@[i]) implies
                        #[trigger] self.workers@[i] == old(self).workers@[i] by {
                        if i == wi {
                            assert(before.workers@[i] == old(self).workers@[i]);
                        }
                    }
                    assert forall|j: int| 0 <= j < old(self).blueprints@.len() && !open_site(old(self).blueprints@[j]) implies
                        #[trigger] self.blueprints@[j] == old(self).blueprints@[j] by {
                        if j == k {
                            assert(before.blueprints@[j] == old(self).blueprints@[j]);
                        }
                    }
                }
            }
            wi = wi + 1;
        }
    }

    /// The deconstruction pass, as the construction pass over deconstruction jobs.
    pub fn assign_deconstruction_jobs_to_pawns(&mut self)
        requires
            old(self).wf(),
        ensures
            exists|ss: Seq<Level>| ss.len() == old(self).workers@.len() + 1 && ss[0] == *old(self)
                && ss[old(self).workers@.len() as int] == *final(self)
                && forall|i: int| 0 <= i < old(self).workers@.len() ==> #[trigger] deconstruction_step(ss[i], ss[i + 1], i),
            final(self).wf(),
            final(self).workers@.len() == old(self).workers@.len(),
            final(self).markers@.len() == old(self).markers@.len(),
            forall|i: int| 0 <= i < old(self).workers@.len() && !idle(old(self).workers@[i]) ==>
                #[trigger] final(self).workers@[i] == old(self).workers@[i],
            forall|k: int| 0 <= k < old(self).markers@.len() && !open_marker(old(self).markers@[k]) ==>
                #[trigger] final(self).markers@[k] == old(self).markers@[k],
            forall|i: int| 0 <= i < final(self).workers@.len() && #[trigger] final(self).can_build(i) ==>
                !final(self).any_open_marker(),
            final(self).settings == old(self).settings,
            final(self).map == old(self).map,
            final(self).money == old(self).money,
            final(self).structures == old(self).structures,
            final(self).blueprints == old(self).blueprints,
            final(self).next_id == old(self).next_id,
    {
        let ghost mut ss: Seq<Level> = seq![*self];
        let mut wi: usize = 0;
        while wi < self.workers.len()
            invariant
                ss.len() == wi + 1,
                ss[0] == *old(self),
                ss[wi as int] == *self,
                forall|i: int| 0 <= i < wi ==> #[trigger] deconstruction_step(ss[i], ss[i + 1], i),
                self.wf(),
                0 <= wi <= self.workers@.len(),
                self.workers@.len() == old(self).workers@.len(),
                self.markers@.len() == old(self).markers@.len(),
                forall|i: int| 0 <= i < old(self).workers@.len() && !idle(old(self).workers@[i]) ==>
                    #[trigger] self.workers@[i] == old(self).workers@[i],
                forall|k: int| 0 <= k < old(self).markers@.len() && !open_marker(old(self).markers@[k]) ==>
                    #[trigger] self.markers@[k] == old(self).markers@[k],
                forall|i: int| 0 <= i < wi && #[trigger] self.can_build(i) ==> !self.any_open_marker(),
                self.settings == old(self).settings,
                self.map == old(self).map,
                self.money == old(self).money,
                self.structures == old(self).structures,
                self.blueprints == old(self).blueprints,
                self.next_id == old(self).next_id,
            decreases self.workers@.len() - wi,
        {
            let ghost before = *self;
            let r = self.assign_deconstruction_to(wi);
            proof {
                let ghost prev = ss;
                ss = ss.push(*self);
                assert forall|q: int| 0 <= q < wi + 1 implies #[trigger] deconstruction_step(ss[q], ss[q + 1], q) by {
                    if q < wi {
                        assert(ss[q] == prev[q] && ss[q + 1] == prev[q + 1]);
                    }
                }
            }
            proof {
                if let Some(k) = r {
                    assert forall|i: int| 0 <= i < wi + 1 && #[trigger] self.can_build(i) implies !self.any_open_marker() by {
                        if i < wi {
                            assert(before.can_build(i));
                            assert(!before.any_open_marker());
                            assert(!open_marker(before.markers@[k as int]));
                        }
                    }
                    assert forall|i: int| 0 <= i < old(self).workers@.len() && !idle(old(self).workers@[i]) implies
                        #[trigger] self.workers@[i] == old(self).workers@[i] by {
                        if i == wi {
                            assert(before.workers@[i] == old(self).workers@[i]);
                        }
                    }
                    assert forall|j: int| 0 <= j < old(self).markers@.len() && !open_marker(old(self).markers@[j]) implies
                        #[trigger] self.markers@[j] == old(self).markers@[j] by {
                        if j == k {
                            assert(before.markers@[j] == old(self).markers@[j]);
                        }
                    }
                }
            }
            wi = wi + 1;
        }
    }

    /// The first worker, in order, that is idle, staffs no console and is
    /// enabled for reception.
    pub fn first_free_receptionist(&self) -> (r: Option<usize>)
        requires
            self.wf(),
        ensures
            r matches Some(i) ==> i < self.workers@.len() && self.can_staff(i as int)
                && forall|j: int| 0 <= j < i ==> !#[trigger] self.can_staff(j),
            r.is_none() ==> forall|j: int| 0 <= j < self.workers@.len() ==> !#[trigger] self.can_staff(j),
    {
        let mut i: usize = 0;
        while i < self.workers.len()
            invariant
                self.wf(),
                0 <= i <= self.workers@.len(),
                forall|j: int| 0 <= j < i ==> !#[trigger] self.can_staff(j),
            decreases self.workers@.len() - i,
        {
            let w = self.workers[i];
            if w.current_job.is_none() && w.staffing.is_none() && w.work_priorities.can_do_work(WorkType::Reception) {
                return Some(i);
            }
            i = i + 1;
        }
        None
    }

    /// Whether some worker staffs `console`.
    pub fn is_staffed(&self, console: u64) -> (r: bool)
        ensures
            r == self.staffed(console),
    {
        let mut i: usize = 0;
        while i < self.workers.len()
            invariant
                0 <= i <= self.workers@.len(),
                forall|j: int| 0 <= j < i ==> (#[trigger] self.workers@[j]).staffing != Some(console),
            decreases self.workers@.len() - i,
        {
            if self.workers[i].staffing == Some(console) {
                return true;
            }
            i = i + 1;
        }
        false
    }

    /// The staffing pass: each reception console, in order, that nobody
    /// staffs gets the first idle worker enabled for reception who staffs
    /// nothing yet, sent to the console. Afterwards every console is staffed
    /// or no such worker is left; workers already staffing are untouched.
    pub fn assign_reception_staff(&mut self)
        requires
            old(self).wf(),
        ensures
            exists|ss: Seq<Level>| ss.len() == old(self).structures@.len() + 1 && ss[0] == *old(self)
                && ss[old(self).structures@.len() as int] == *final(self)
                && forall|c: int| 0 <= c < old(self).structures@.len() ==> #[trigger] staffing_step(ss[c], ss[c + 1], c),
            final(self).wf(),
            final(self).workers@.len() == old(self).workers@.len(),
            forall|i: int| 0 <= i < old(self).workers@.len() && !old(self).can_staff(i) ==>
                #[trigger] final(self).workers@[i] == old(self).workers@[i],
            forall|i: int| 0 <= i < old(self).workers@.len() && old(self).can_staff(i) ==> {
                let (w0, w1) = (old(self).workers@[i], #[trigger] final(self).workers@[i]);
                w1 == w0 || (w1.staffing.is_some() && w1 == Worker { staffing: w1.staffing, movement_target: w1.movement_target, ..w0 })
            },
            forall|c: int| 0 <= c < final(self).structures@.len() && is_console((#[trigger] final(self).structures@[c]).kind) ==>
                final(self).staffed(final(self).structures@[c].id)
                || forall|j: int| 0 <= j < final(self).workers@.len() ==> !#[trigger] final(self).can_staff(j),
            final(self).settings == old(self).settings,
            final(self).map == old(self).map,
            final(self).money == old(self).money,
            final(self).structures == old(self).structures,
            final(self).blueprints == old(self).blueprints,
            final(self).markers == old(self).markers,
            final(self).next_id == old(self).next_id,
    {
        let ghost mut ss: Seq<Level> = seq![*self];
        let mut c: usize = 0;
        while c < self.structures.len()
            invariant
                ss.len() == c + 1,
                ss[0] == *old(self),
                ss[c as int] == *self,
                forall|q: int| 0 <= q < c ==> #[trigger] staffing_step(ss[q], ss[q + 1], q),
                self.wf(),
                0 <= c <= self.structures@.len(),
                self.workers@.len() == old(self).workers@.len(),
                forall|i: int| 0 <= i < old(self).workers@.len() && !old(self).can_staff(i) ==>
                    #[trigger] self.workers@[i] == old(self).workers@[i],
                forall|i: int| 0 <= i < old(self).workers@.len() && old(self).can_staff(i) ==> {
                    let (w0, w1) = (old(self).workers@[i], #[trigger] self.workers@[i]);
                    w1 == w0 || (w1.staffing.is_some() && w1 == Worker { staffing: w1.staffing, movement_target: w1.movement_target, ..w0 })
                },
                forall|i: int| 0 <= i < self.workers@.len() && #[trigger] self.can_staff(i) ==> old(self).can_staff(i),
                forall|k: int| 0 <= k < c && is_console((#[trigger] self.structures@[k]).kind) ==>
                    self.staffed(self.structures@[k].id)
                    || forall|j: int| 0 <= j < self.workers@.len() ==> !#[trigger] self.can_staff(j),
                self.settings == old(self).settings,
                self.map == old(self).map,
                self.money == old(self).money,
                self.structures == old(self).structures,
                self.blueprints == old(self).blueprints,
                self.markers == old(self).markers,
                self.next_id == old(self).next_id,
            decreases self.structures@.len() - c,
        {
            let ghost pre = *self;
            let s = self.structures[c];
            let console = match s.kind {
                StructureKind::Furniture(FurnitureType::ReceptionConsole, _) => true,
                _ => false,
            };
            if console && self.settings.contains_pos(s.pos) && !self.is_staffed(s.id) {
                match self.first_free_receptionist() {
                    None => {
                        proof {
                            assert(!exists|q: int| 0 <= q < pre.workers@.len() && #[trigger] pre.can_staff(q));
                            assert(staffing_step(pre, *self, c as int));
                        }
                    },
                    Some(i) => {
                        let ghost before = *self;
                        let target = grid_to_world(s.pos, self.settings.tile_size, self.settings.width, self.settings.height);
                        self.workers[i].staffing = Some(s.id);
                        self.workers[i].movement_target = Some(target);
                        proof {
                            assert(self.staffed(s.id)) by {
                                assert(self.workers@[i as int].staffing == Some(s.id));
                            }
                            assert forall|k: int| 0 <= k < c + 1 && is_console((#[trigger] self.structures@[k]).kind) implies
                                self.staffed(self.structures@[k].id)
                                || forall|j: int| 0 <= j < self.workers@.len() ==> !#[trigger] self.can_staff(j) by {
                                if k < c && !before.staffed(before.structures@[k].id) {
                                    assert(!before.can_staff(i as int));
                                }
                                if k < c && before.staffed(before.structures@[k].id) {
                                    let j = choose|j: int| 0 <= j < before.workers@.len() && (#[trigger] before.workers@[j]).staffing == Some(before.structures@[k].id);
                                    assert(self.workers@[j].staffing == Some(self.structures@[k].id));
                                }
                            }
                            assert forall|j: int| 0 <= j < self.workers@.len() && #[trigger] self.can_staff(j) implies old(self).can_staff(j) by {
                                assert(before.can_staff(j));
                            }
                            assert forall|j: int| 0 <= j < old(self).workers@.len() && old(self).can_staff(j) implies {
                                let (w0, w1) = (old(self).workers@[j], #[trigger] self.workers@[j]);
                                w1 == w0 || (w1.staffing.is_some() && w1 == Worker { staffing: w1.staffing, movement_target: w1.movement_target, ..w0 })
                            } by {
                                if j == i {
                                    assert(before.can_staff(j));
                                    assert(before.workers@[j] == old(self).workers@[j]);
                                }
                            }
                            assert(forall|j: int| 0 <= j < self.workers@.len() ==> (#[trigger] self.workers@[j]).work_priorities.wf());
                            assert(self.workers@ =~= pre.workers@.update(
                                i as int,
                                Worker { staffing: Some(s.id), movement_target: Some(world_of(pre.settings, s.pos)), ..pre.workers@[i as int] },
                            ));
                            assert(pre.can_staff(i as int));
                            assert(pre.workers@[i as int] == pre.workers@[i as int]);
                            assert(staffing_step(pre, *self, c as int));
                        }
                    },
                }
            } else {
                proof {
                    if console {
                        assert(self.settings.contains(self.structures@[c as int].pos));
                    }
                    assert(staffing_step(pre, *self, c as int));
                }
            }
            proof {
                let prev = ss;
                ss = ss.push(*self);
                assert forall|q: int| 0 <= q < c + 1 implies #[trigger] staffing_step(ss[q], ss[q + 1], q) by {
                    if q < c {
                        assert(ss[q] == prev[q] && ss[q + 1] == prev[q + 1]);
                    }
                }
            }
            c = c + 1;
        }
    }
}

} // verus!
