//! Blueprints, deconstruction markers and the jobs attached to them.
//!
//! Work is counted in thousandths of a work unit and time in milliseconds,
//! so that a rate of `r` units per second adds `r` thousandths per millisecond.
use vstd::prelude::*;
use crate::building::{DoorOrientation, FloorType};
use crate::furniture::FurnitureType;

verus! {

/// Thousandths per work unit.
pub const WORK_SCALE: u64 = 1000;

/// Construction speed, in work units per second.
pub const CONSTRUCTION_SPEED: u64 = 50;

/// Deconstruction speed, in work units per second.
pub const DECONSTRUCTION_SPEED: u64 = 40;

/// Work needed to take down any object, in work units.
pub const DECONSTRUCTION_WORK: u64 = 100;

/// Longest time step that a single work step accepts, in milliseconds:
/// the most for which the largest rate times the step fits in `u64`.
pub const MAX_STEP_MS: u64 = 18_446_744_073_709;

/// Largest work rate that a single work step accepts, in units per second.
pub const MAX_RATE: u64 = 1_000_000;

#[derive(Debug, Clone, Copy, PartialEq, Eq, Structural)]
pub enum BlueprintType {
    Wall,
    Door(DoorOrientation),
    Window,
    Floor(FloorType),
    Furniture(FurnitureType),
}

/// Work a blueprint of each type needs, in work units.
pub open spec fn work_units(t: BlueprintType) -> u64 {
    match t {
        BlueprintType::Wall => 100,
        BlueprintType::Door(_) => 150,
        BlueprintType::Window => 120,
        BlueprintType::Floor(_) => 50,
        BlueprintType::Furniture(_) => 80,
    }
}

/// Work done after adding `amount` to `done`, never past `required`.
pub open spec fn accumulated(done: int, required: int, amount: int) -> int {
    if done + amount <= required { done + amount } else { required }
}

/// Work done after steps of `dts` milliseconds at `rate` units per second,
/// starting from `done`.
pub open spec fn work_after(done: int, required: int, rate: int, dts: Seq<nat>) -> int
    decreases dts.len(),
{
    if dts.len() == 0 {
        done
    } else {
        accumulated(work_after(done, required, rate, dts.drop_last()), required, rate * dts.last())
    }
}

pub open spec fn total_ms(dts: Seq<nat>) -> int
    decreases dts.len(),
{
    if dts.len() == 0 { 0 } else { total_ms(dts.drop_last()) + dts.last() }
}

/// Adds `rate * dt_ms` to `done`, clamped to `required`.
pub fn add_work(done: u64, required: u64, rate: u64, dt_ms: u64) -> (r: u64)
    requires
        done <= required,
        rate <= MAX_RATE,
        dt_ms <= MAX_STEP_MS,
    ensures
        r == accumulated(done as int, required as int, rate * dt_ms),
        r <= required,
{
    assert(rate * dt_ms <= MAX_RATE * MAX_STEP_MS) by (nonlinear_arith)
        requires rate <= MAX_RATE, dt_ms <= MAX_STEP_MS;
    let amount: u64 = rate * dt_ms;
    if amount <= required - done {
        done + amount
    } else {
        required
    }
}

/// Work in progress on a structure.
#[derive(Debug, Clone, Copy, PartialEq, Eq, Structural)]
pub struct Blueprint {
    pub building_type: BlueprintType,
    /// In thousandths of a unit.
    pub work_required: u64,
    /// In thousandths of a unit.
    pub work_done: u64,
}

impl Blueprint {
    pub open spec fn wf(&self) -> bool {
        0 < self.work_required && self.work_done <= self.work_required
    }

    /// A fresh blueprint; the work it needs depends on its type alone.
    pub fn new(building_type: BlueprintType) -> (r: Blueprint)
        ensures
            r.wf(),
            r.building_type == building_type,
            r.work_required == work_units(building_type) * WORK_SCALE,
            r.work_done == 0,
    {
        let units: u64 = match building_type {
            BlueprintType::Wall => 100,
            BlueprintType::Door(_) => 150,
            BlueprintType::Window => 120,
            BlueprintType::Floor(_) => 50,
            BlueprintType::Furniture(_) => 80,
        };
        Blueprint { building_type, work_required: units * WORK_SCALE, work_done: 0 }
    }

    /// Progress in thousandths, rounded down.
    pub fn progress(&self) -> (r: u64)
        requires
            self.wf(),
        ensures
            r == (self.work_done * 1000) as int / (self.work_required as int),
            r <= 1000,
    {
        let r: u128 = self.work_done as u128 * 1000 / self.work_required as u128;
        assert(r <= 1000) by (nonlinear_arith)
            requires
                r == (self.work_done * 1000) as int / (self.work_required as int),
                self.work_done <= self.work_required,
                self.work_required > 0;
        r as u64
    }

    pub fn is_complete(&self) -> (r: bool)
        ensures
            r == (self.work_done >= self.work_required),
    {
        self.work_done >= self.work_required
    }

    /// One step of work at `rate` units per second for `dt_ms` milliseconds.
    pub fn add_work(&mut self, rate: u64, dt_ms: u64)
        requires
            old(self).wf(),
            rate <= MAX_RATE,
            dt_ms <= MAX_STEP_MS,
        ensures
            final(self).wf(),
            final(self).building_type == old(self).building_type,
            final(self).work_required == old(self).work_required,
            final(self).work_done == accumulated(old(self).work_done as int, old(self).work_required as int, rate * dt_ms),
    {
        self.work_done = add_work(self.work_done, self.work_required, rate, dt_ms);
    }
}

/// The job of building one blueprint.
#[derive(Debug, Clone, Copy, PartialEq, Eq, Structural)]
pub struct ConstructionJob {
    /// The blueprint this job builds.
    pub blueprint: u64,
    pub assigned_pawn: Option<u64>,
    pub priority: i32,
}

impl ConstructionJob {
    pub fn new(blueprint: u64) -> (r: ConstructionJob)
        ensures
            r.blueprint == blueprint,
            r.assigned_pawn.is_none(),
            r.priority == 5,
    {
        ConstructionJob { blueprint, assigned_pawn: None, priority: 5 }
    }
}

/// An order to take down one object.
#[derive(Debug, Clone, Copy, PartialEq, Eq, Structural)]
pub struct DeconstructionMarker {
    pub target_entity: u64,
    /// In thousandths of a unit.
    pub work_required: u64,
    /// In thousandths of a unit.
    pub work_done: u64,
}

impl DeconstructionMarker {
    pub open spec fn wf(&self) -> bool {
        0 < self.work_required && self.work_done <= self.work_required
    }

    pub fn new(target_entity: u64) -> (r: DeconstructionMarker)
        ensures
            r.wf(),
            r.target_entity == target_entity,
            r.work_required == DECONSTRUCTION_WORK * WORK_SCALE,
            r.work_done == 0,
    {
        DeconstructionMarker { target_entity, work_required: DECONSTRUCTION_WORK * WORK_SCALE, work_done: 0 }
    }

    /// Progress in thousandths, rounded down.
    pub fn progress(&self) -> (r: u64)
        requires
            self.wf(),
        ensures
            r == (self.work_done * 1000) as int / (self.work_required as int),
            r <= 1000,
    {
        let r: u128 = self.work_done as u128 * 1000 / self.work_required as u128;
        assert(r <= 1000) by (nonlinear_arith)
            requires
                r == (self.work_done * 1000) as int / (self.work_required as int),
                self.work_done <= self.work_required,
                self.work_required > 0;
        r as u64
    }

    pub fn is_complete(&self) -> (r: bool)
        ensures
            r == (self.work_done >= self.work_required),
    {
        self.work_done >= self.work_required
    }

    pub fn add_work(&mut self, rate: u64, dt_ms: u64)
        requires
            old(self).wf(),
            rate <= MAX_RATE,
            dt_ms <= MAX_STEP_MS,
        ensures
            final(self).wf(),
            final(self).target_entity == old(self).target_entity,
            final(self).work_required == old(self).work_required,
            final(self).work_done == accumulated(old(self).work_done as int, old(self).work_required as int, rate * dt_ms),
    {
        self.work_done = add_work(self.work_done, self.work_required, rate, dt_ms);
    }
}

/// The job of carrying out one deconstruction marker.
#[derive(Debug, Clone, Copy, PartialEq, Eq, Structural)]
pub struct DeconstructionJob {
    pub marker: u64,
    pub assigned_pawn: Option<u64>,
}

impl DeconstructionJob {
    pub fn new(marker: u64) -> (r: DeconstructionJob)
        ensures
            r.marker == marker,
            r.assigned_pawn.is_none(),
    {
        DeconstructionJob { marker, assigned_pawn: None }
    }
}

/// Work accumulated from zero over any sequence of steps is the rate times
/// the total time, capped at the work required; it never exceeds the
/// requirement and never goes below zero.
pub proof fn lemma_work_accumulates(required: nat, rate: nat, dts: Seq<nat>)
    ensures
        work_after(0, required as int, rate as int, dts) == if rate * total_ms(dts) <= required {
            rate * total_ms(dts)
        } else {
            required as int
        },
        0 <= work_after(0, required as int, rate as int, dts) <= required,
    decreases dts.len(),
{
    if dts.len() > 0 {
        let init = dts.drop_last();
        lemma_work_accumulates(required, rate, init);
        lemma_total_nonneg(init);
        let t = total_ms(init);
        let d = dts.last() as int;
        assert(rate * (t + d) == rate * t + rate * d) by (nonlinear_arith);
        assert(rate * t >= 0 && rate * d >= 0) by (nonlinear_arith)
            requires t >= 0, d >= 0, rate >= 0;
    }
}

pub proof fn lemma_total_nonneg(dts: Seq<nat>)
    ensures
        total_ms(dts) >= 0,
    decreases dts.len(),
{
    if dts.len() > 0 {
        lemma_total_nonneg(dts.drop_last());
    }
}

} // verus!
