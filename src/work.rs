//! Work categories and each worker's ranked preferences over them.
use vstd::prelude::*;

verus! {

/// Kinds of work a worker can be enabled for.
#[derive(Debug, Clone, Copy, PartialEq, Eq, Structural)]
pub enum WorkType {
    Construction,
    Reception,
    Cleaning,
    Cooking,
}

/// A priority from 0 to 4: 0 disables the category, 1 is the most preferred.
#[derive(Debug, Clone, Copy, PartialEq, Eq, Structural)]
pub struct WorkPriority(pub u8);

pub const DISABLED: u8 = 0;

pub const HIGHEST: u8 = 1;

pub const HIGH: u8 = 2;

pub const NORMAL: u8 = 3;

pub const LOW: u8 = 4;

/// One step towards 1: 0 and 1 go to 1, any other n to n - 1.
pub open spec fn towards_highest(p: u8) -> u8 {
    if p <= 1 { 1 } else { (p - 1) as u8 }
}

/// One step towards 0: 0 and 4 go to 0, any other n to n + 1.
pub open spec fn towards_disabled(p: u8) -> u8 {
    if p == 0 || p == 4 { 0 } else { (p + 1) as u8 }
}

/// How a priority reads: "-" when disabled, else its digit.
pub open spec fn priority_label(p: u8) -> &'static str {
    if p == 0 { "-" } else if p == 1 { "1" } else if p == 2 { "2" } else if p == 3 { "3" } else { "4" }
}

pub open spec fn work_label(t: WorkType) -> &'static str {
    match t {
        WorkType::Construction => "Construction",
        WorkType::Reception => "Reception",
        WorkType::Cleaning => "Cleaning",
        WorkType::Cooking => "Cooking",
    }
}

impl WorkType {
    pub fn name(&self) -> (r: &'static str)
        ensures
            r == work_label(*self),
    {
        match self {
            WorkType::Construction => "Construction",
            WorkType::Reception => "Reception",
            WorkType::Cleaning => "Cleaning",
            WorkType::Cooking => "Cooking",
        }
    }

    pub fn all() -> (r: Vec<WorkType>)
        ensures
            r@ == seq![WorkType::Construction, WorkType::Reception, WorkType::Cleaning, WorkType::Cooking],
    {
        vec![WorkType::Construction, WorkType::Reception, WorkType::Cleaning, WorkType::Cooking]
    }
}

impl WorkPriority {
    pub open spec fn valid(self) -> bool {
        self.0 <= 4
    }

    pub fn is_enabled(&self) -> (r: bool)
        ensures
            r == (self.0 > 0),
    {
        self.0 > 0
    }

    pub fn decrease_towards_highest(&mut self)
        ensures
            final(self).0 == towards_highest(old(self).0),
    {
        self.0 = if self.0 <= 1 { 1 } else { self.0 - 1 };
    }

    pub fn increase_towards_disabled(&mut self)
        requires
            old(self).valid(),
        ensures
            final(self).0 == towards_disabled(old(self).0),
            final(self).valid(),
    {
        self.0 = if self.0 == 0 || self.0 == 4 { 0 } else { self.0 + 1 };
    }

    /// "-" when disabled, else the digit.
    pub fn display(&self) -> (r: &'static str)
        requires
            self.valid(),
        ensures
            r == priority_label(self.0),
    {
        match self.0 {
            0 => "-",
            1 => "1",
            2 => "2",
            3 => "3",
            _ => "4",
        }
    }
}

/// A worker's priority for each work category.
#[derive(Debug, Clone, Copy, PartialEq, Eq, Structural)]
pub struct WorkAssignments {
    pub construction: WorkPriority,
    pub reception: WorkPriority,
    pub cleaning: WorkPriority,
    pub cooking: WorkPriority,
}

impl WorkAssignments {
    pub open spec fn prio(&self, t: WorkType) -> u8 {
        match t {
            WorkType::Construction => self.construction.0,
            WorkType::Reception => self.reception.0,
            WorkType::Cleaning => self.cleaning.0,
            WorkType::Cooking => self.cooking.0,
        }
    }

    pub open spec fn enabled(&self, t: WorkType) -> bool {
        self.prio(t) > 0
    }

    pub open spec fn wf(&self) -> bool {
        &&& self.construction.valid()
        &&& self.reception.valid()
        &&& self.cleaning.valid()
        &&& self.cooking.valid()
    }

    /// The enabled category of `cands` with the smallest priority number; on
    /// a tie the earliest in `cands`; `None` when none is enabled.
    pub open spec fn best_of(&self, cands: Seq<WorkType>) -> Option<WorkType>
        decreases cands.len(),
    {
        if cands.len() == 0 {
            None
        } else {
            let t = cands.last();
            let rest = self.best_of(cands.drop_last());
            if !self.enabled(t) {
                rest
            } else {
                match rest {
                    None => Some(t),
                    Some(b) => if self.prio(t) < self.prio(b) { Some(t) } else { Some(b) },
                }
            }
        }
    }

    /// Construction at normal priority, every other category disabled.
    pub open spec fn default_spec() -> WorkAssignments {
        WorkAssignments {
            construction: WorkPriority(NORMAL),
            reception: WorkPriority(DISABLED),
            cleaning: WorkPriority(DISABLED),
            cooking: WorkPriority(DISABLED),
        }
    }

    pub fn default() -> (r: WorkAssignments)
        ensures
            r == Self::default_spec(),
            r.wf(),
            r.prio(WorkType::Construction) == 3,
            r.prio(WorkType::Reception) == 0,
            r.prio(WorkType::Cleaning) == 0,
            r.prio(WorkType::Cooking) == 0,
    {
        WorkAssignments {
            construction: WorkPriority(NORMAL),
            reception: WorkPriority(DISABLED),
            cleaning: WorkPriority(DISABLED),
            cooking: WorkPriority(DISABLED),
        }
    }

    pub fn get_priority(&self, work_type: WorkType) -> (r: WorkPriority)
        ensures
            r.0 == self.prio(work_type),
    {
        match work_type {
            WorkType::Construction => self.construction,
            WorkType::Reception => self.reception,
            WorkType::Cleaning => self.cleaning,
            WorkType::Cooking => self.cooking,
        }
    }

    pub fn set_priority(&mut self, work_type: WorkType, priority: WorkPriority)
        requires
            old(self).wf(),
            priority.valid(),
        ensures
            final(self).wf(),
            final(self).prio(work_type) == priority.0,
            forall|t: WorkType| t != work_type ==> final(self).prio(t) == old(self).prio(t),
    {
        match work_type {
            WorkType::Construction => self.construction = priority,
            WorkType::Reception => self.reception = priority,
            WorkType::Cleaning => self.cleaning = priority,
            WorkType::Cooking => self.cooking = priority,
        }
    }

    /// Moves one category a step towards the most preferred.
    pub fn decrease_priority(&mut self, work_type: WorkType)
        requires
            old(self).wf(),
        ensures
            final(self).wf(),
            final(self).prio(work_type) == towards_highest(old(self).prio(work_type)),
            forall|t: WorkType| t != work_type ==> final(self).prio(t) == old(self).prio(t),
    {
        let mut p = self.get_priority(work_type);
        p.decrease_towards_highest();
        self.set_priority(work_type, p);
    }

    /// Moves one category a step towards disabled.
    pub fn increase_priority(&mut self, work_type: WorkType)
        requires
            old(self).wf(),
        ensures
            final(self).wf(),
            final(self).prio(work_type) == towards_disabled(old(self).prio(work_type)),
            forall|t: WorkType| t != work_type ==> final(self).prio(t) == old(self).prio(t),
    {
        let mut p = self.get_priority(work_type);
        p.increase_towards_disabled();
        self.set_priority(work_type, p);
    }

    pub fn can_do_work(&self, work_type: WorkType) -> (r: bool)
        ensures
            r == self.enabled(work_type),
    {
        self.get_priority(work_type).is_enabled()
    }

    /// The enabled category among `available_work_types` that the worker
    /// prefers most (first one on a tie), or `None` if none is enabled.
    pub fn get_highest_priority_work(&self, available_work_types: &[WorkType]) -> (r: Option<WorkType>)
        ensures
            r == self.best_of(available_work_types@),
    {
        let mut best: Option<WorkType> = None;
        let mut i: usize = 0;
        while i < available_work_types.len()
            invariant
                0 <= i <= available_work_types@.len(),
                best == self.best_of(available_work_types@.take(i as int)),
            decreases available_work_types@.len() - i,
        {
            let t = available_work_types[i];
            proof {
                let s = available_work_types@.take(i as int + 1);
                assert(s.drop_last() =~= available_work_types@.take(i as int));
                assert(s.last() == t);
            }
            if self.can_do_work(t) {
                match best {
                    None => best = Some(t),
                    Some(b) => {
                        if self.get_priority(t).0 < self.get_priority(b).0 {
                            best = Some(t);
                        }
                    },
                }
            }
            i = i + 1;
        }
        proof {
            assert(available_work_types@.take(i as int) =~= available_work_types@);
        }
        best
    }
}

/// When `cands` holds an enabled category `t`, the preferred category exists,
/// is one of `cands`, is enabled, and is preferred at least as much as `t`.
pub proof fn lemma_best_at_least(w: WorkAssignments, cands: Seq<WorkType>, t: WorkType)
    requires
        cands.contains(t),
        w.enabled(t),
    ensures
        w.best_of(cands) matches Some(b) && cands.contains(b) && w.enabled(b) && w.prio(b) <= w.prio(t),
    decreases cands.len(),
{
    lemma_best_member(w, cands);
    let last = cands.last();
    let init = cands.drop_last();
    if last == t {
        match w.best_of(init) {
            None => {},
            Some(b) => {},
        }
    } else {
        let k = choose|k: int| 0 <= k < cands.len() && cands[k] == t;
        assert(init[k] == t);
        lemma_best_at_least(w, init, t);
    }
}

/// The preferred category, when there is one, is an enabled member of `cands`.
pub proof fn lemma_best_member(w: WorkAssignments, cands: Seq<WorkType>)
    ensures
        w.best_of(cands) matches Some(b) ==> cands.contains(b) && w.enabled(b),
    decreases cands.len(),
{
    if cands.len() > 0 {
        let init = cands.drop_last();
        lemma_best_member(w, init);
        if let Some(b) = w.best_of(init) {
            let k = choose|k: int| 0 <= k < init.len() && init[k] == b;
            assert(cands[k] == b);
        }
        assert(cands[cands.len() - 1] == cands.last());
    }
}

/// A worker with Construction at priority 1 and Cleaning at priority 3 is
/// never handed Cleaning while Construction is also on offer: whatever is
/// chosen has priority 1.
pub proof fn lemma_construction_before_cleaning(w: WorkAssignments, cands: Seq<WorkType>)
    requires
        w.prio(WorkType::Construction) == 1,
        w.prio(WorkType::Cleaning) == 3,
        cands.contains(WorkType::Construction),
        cands.contains(WorkType::Cleaning),
    ensures
        w.best_of(cands) matches Some(b) && b != WorkType::Cleaning && w.prio(b) == 1,
{
    lemma_best_at_least(w, cands, WorkType::Construction);
}

} // verus!
