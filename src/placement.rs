//! Placement requests: validation against the ledger and the balance, then
//! the blueprint, the furniture object and the ledger update.
use vstd::prelude::*;
use crate::grid::GridPosition;
use crate::building::{DoorOrientation, door_second, fits_footprint, in_rect, Door};
use crate::furniture::{FurnitureOrientation, FurnitureType, oriented_dims};
use crate::occupancy::{wall_placed, wall_cleared, door_placed, floor_placed, marked_occupied};
use crate::jobs::{Blueprint, BlueprintType, ConstructionJob, work_units, WORK_SCALE};
use crate::economy::{BuildingType, cost_of};
use crate::level::{Level, Structure, StructureKind, BlueprintSite, hit, released};

verus! {

/// A fresh blueprint site of type `t` at `pos`, with its unassigned job.
pub open spec fn new_site(id: u64, pos: GridPosition, t: BlueprintType) -> BlueprintSite {
    BlueprintSite {
        id,
        pos,
        blueprint: Blueprint { building_type: t, work_required: (work_units(t) * WORK_SCALE) as u64, work_done: 0 },
        job: ConstructionJob { blueprint: id, assigned_pawn: None, priority: 5 },
    }
}

pub open spec fn is_desk(k: StructureKind) -> bool {
    k matches StructureKind::Furniture(FurnitureType::Desk, _)
}

/// Tile `t` of the rectangle spanned by `start` and `end`, column by column.
pub open spec fn area_tile(start: GridPosition, end: GridPosition, t: int) -> GridPosition {
    let h = crate::controls::span(start.y, end.y);
    GridPosition {
        x: (crate::controls::min_i(start.x, end.x) + t / h) as i32,
        y: (crate::controls::min_i(start.y, end.y) + t % h) as i32,
    }
}

/// One tile of a drag placement: the building goes down at `q` and is paid
/// for when it may be placed there and the balance covers it; otherwise
/// nothing changes.
pub open spec fn area_step(pre: Level, post: Level, b: BuildingType, q: GridPosition) -> bool {
    if pre.placement_allowed(b, q, DoorOrientation::Horizontal, FurnitureOrientation::East) && pre.money.amount >= cost_of(b) {
        post.placed_from(&pre, b, q, DoorOrientation::Horizontal, FurnitureOrientation::East)
    } else {
        post == pre
    }
}

impl Level {
    pub open spec fn free_for_wall(&self, p: GridPosition) -> bool {
        self.map.holds(p) && !self.map.occupied_at(p) && !self.map.door_at(p)
    }

    pub open spec fn free_for_floor(&self, p: GridPosition) -> bool {
        self.map.holds(p) && !self.map@[p].occupied
    }

    /// Free, or holding a wall that a window or door may replace; never a door.
    pub open spec fn replaceable(&self, p: GridPosition) -> bool {
        &&& self.map.holds(p)
        &&& !self.map.door_at(p)
        &&& !(self.map@[p].occupied && self.map@[p].wall.is_none())
    }

    pub open spec fn free_for_door(&self, p: GridPosition, o: DoorOrientation) -> bool {
        fits_footprint(p) && self.replaceable(p) && self.replaceable(door_second(p, o))
    }

    pub open spec fn furniture_tile_ok(&self, q: GridPosition) -> bool {
        self.map.holds(q) && self.map@[q].floor && !self.map@[q].occupied && !self.map.door_at(q)
    }

    pub open spec fn has_desk_under(&self, p: GridPosition) -> bool {
        exists|i: int| 0 <= i < self.structures@.len()
            && is_desk((#[trigger] self.structures@[i]).kind)
            && in_rect(self.structures@[i].pos, 2, 2, p)
    }

    pub open spec fn free_for_furniture(&self, t: FurnitureType, p: GridPosition, o: FurnitureOrientation) -> bool {
        if t == FurnitureType::ReceptionConsole {
            self.map.holds(p) && self.has_desk_under(p)
        } else {
            &&& self.map.holds(p)
            &&& fits_footprint(p)
            &&& forall|q: GridPosition| in_rect(p, oriented_dims(t, o).0, oriented_dims(t, o).1, q)
                ==> #[trigger] self.furniture_tile_ok(q)
        }
    }

    pub open spec fn placement_allowed(&self, b: BuildingType, p: GridPosition, door: DoorOrientation, furn: FurnitureOrientation) -> bool {
        match b {
            BuildingType::Wall => self.free_for_wall(p),
            BuildingType::Floor(_) => self.free_for_floor(p),
            BuildingType::Window => self.replaceable(p),
            BuildingType::Door => self.free_for_door(p, door),
            BuildingType::Furniture(t) => self.free_for_furniture(t, p, furn),
        }
    }

    /// Everything but the ledger, the balance, the blueprints and the id counter is as before.
    pub open spec fn same_objects(&self, other: &Level) -> bool {
        &&& self.settings == other.settings
        &&& self.structures == other.structures
        &&& self.markers == other.markers
        &&& self.workers == other.workers
    }

    /// The effect of a successful placement of `b` at `p`, from `old` to `self`.
    pub open spec fn placed_from(&self, old: &Level, b: BuildingType, p: GridPosition, door: DoorOrientation, furn: FurnitureOrientation) -> bool {
        let id = old.next_id;
        &&& self.next_id == id + 1
        &&& self.settings == old.settings
        &&& self.markers == old.markers
        &&& self.money.amount == old.money.amount - cost_of(b)
        &&& match b {
            BuildingType::Wall => {
                &&& self.map@ == old.map@.insert(p, wall_placed(old.map@[p], id))
                &&& self.blueprints@ == old.blueprints@.push(new_site(id, p, BlueprintType::Wall))
                &&& self.structures == old.structures
                &&& self.workers == old.workers
            },
            BuildingType::Floor(f) => {
                &&& self.map@ == old.map@.insert(p, floor_placed(old.map@[p]))
                &&& self.blueprints@ == old.blueprints@.push(new_site(id, p, BlueprintType::Floor(f)))
                &&& self.structures == old.structures
                &&& self.workers == old.workers
            },
            BuildingType::Window => {
                let w = old.map@[p].wall;
                &&& self.map@ == old.map@.insert(p, marked_occupied(wall_cleared(old.map@[p])))
                &&& self.structures@ == old.structures@.filter(|s: Structure| !hit(w, None, s.id))
                &&& self.blueprints@ == old.blueprints@.filter(|s: BlueprintSite| !hit(w, None, s.id)).push(
                    new_site(id, p, BlueprintType::Window),
                )
                &&& self.workers@.len() == old.workers@.len()
                &&& forall|i: int| 0 <= i < self.workers@.len() ==>
                    #[trigger] self.workers@[i] == released(old.workers@[i], w, None)
            },
            BuildingType::Door => {
                let q = door_second(p, door);
                let w1 = old.map@[p].wall;
                let w2 = old.map@[q].wall;
                &&& self.map@ == old.map@.insert(p, door_placed(old.map@[p], id)).insert(q, door_placed(old.map@[q], id))
                &&& self.structures@ == old.structures@.filter(|s: Structure| !hit(w1, w2, s.id))
                &&& self.blueprints@ == old.blueprints@.filter(|s: BlueprintSite| !hit(w1, w2, s.id)).push(
                    new_site(id, p, BlueprintType::Door(door)),
                )
                &&& self.workers@.len() == old.workers@.len()
                &&& forall|i: int| 0 <= i < self.workers@.len() ==>
                    #[trigger] self.workers@[i] == released(old.workers@[i], w1, w2)
            },
            BuildingType::Furniture(t) => {
                &&& self.structures@ == old.structures@.push(
                    Structure { id, kind: StructureKind::Furniture(t, furn), pos: p },
                )
                &&& self.blueprints == old.blueprints
                &&& self.workers == old.workers
                &&& if t == FurnitureType::ReceptionConsole {
                    self.map == old.map
                } else {
                    &&& self.map.width == old.map.width
                    &&& self.map.height == old.map.height
                    &&& forall|q: GridPosition| #[trigger] old.map.holds(q) ==> self.map@[q] == if in_rect(
                        p,
                        oriented_dims(t, furn).0,
                        oriented_dims(t, furn).1,
                        q,
                    ) {
                        marked_occupied(old.map@[q])
                    } else {
                        old.map@[q]
                    }
                }
            },
        }
    }

    fn push_site(&mut self, id: u64, pos: GridPosition, t: BlueprintType)
        requires
            old(self).wf(),
            old(self).settings.contains(pos),
        ensures
            final(self).wf(),
            final(self).blueprints@ == old(self).blueprints@.push(new_site(id, pos, t)),
            final(self).settings == old(self).settings,
            final(self).map == old(self).map,
            final(self).money == old(self).money,
            final(self).structures == old(self).structures,
            final(self).markers == old(self).markers,
            final(self).workers == old(self).workers,
            final(self).next_id == old(self).next_id,
    {
        let site = BlueprintSite { id, pos, blueprint: Blueprint::new(t), job: ConstructionJob::new(id) };
        self.blueprints.push(site);
    }

    /// Whether a desk's two by two footprint covers `p`.
    pub fn desk_under(&self, p: GridPosition) -> (r: bool)
        ensures
            r == self.has_desk_under(p),
    {
        let mut i: usize = 0;
        while i < self.structures.len()
            invariant
                0 <= i <= self.structures@.len(),
                forall|j: int| 0 <= j < i ==> !(is_desk((#[trigger] self.structures@[j]).kind)
                    && in_rect(self.structures@[j].pos, 2, 2, p)),
            decreases self.structures@.len() - i,
        {
            let s = self.structures[i];
            let desk = match s.kind {
                StructureKind::Furniture(FurnitureType::Desk, _) => true,
                _ => false,
            };
            let dx: i64 = p.x as i64 - s.pos.x as i64;
            let dy: i64 = p.y as i64 - s.pos.y as i64;
            if desk && 0 <= dx && dx < 2 && 0 <= dy && dy < 2 {
                assert(is_desk(self.structures@[i as int].kind) && in_rect(self.structures@[i as int].pos, 2, 2, p));
                return true;
            }
            i = i + 1;
        }
        false
    }

    /// Whether every tile of the piece's footprint has a floor and is free.
    pub fn footprint_free(&self, t: FurnitureType, p: GridPosition, o: FurnitureOrientation) -> (r: bool)
        requires
            self.wf(),
            fits_footprint(p),
        ensures
            r == forall|q: GridPosition| in_rect(p, oriented_dims(t, o).0, oriented_dims(t, o).1, q)
                ==> #[trigger] self.furniture_tile_ok(q),
    {
        let tiles = t.tiles_occupied(p, o);
        let ghost w = oriented_dims(t, o).0;
        let ghost h = oriented_dims(t, o).1;
        let mut i: usize = 0;
        while i < tiles.len()
            invariant
                self.wf(),
                w == oriented_dims(t, o).0,
                h == oriented_dims(t, o).1,
                0 <= i <= tiles@.len(),
                crate::building::lists_rect(tiles@, p, w, h),
                forall|j: int| 0 <= j < i ==> self.furniture_tile_ok(#[trigger] tiles@[j]),
            decreases tiles@.len() - i,
        {
            let q = tiles[i];
            let cell = self.map.tile_or_empty(q);
            if !(self.map.contains_pos(q) && cell.floor && !cell.occupied && !cell.door.is_some()) {
                assert(in_rect(p, w, h, tiles@[i as int]));
                assert(!self.furniture_tile_ok(q));
                return false;
            }
            i = i + 1;
        }
        proof {
            assert forall|q: GridPosition| in_rect(p, w, h, q) implies #[trigger] self.furniture_tile_ok(q) by {
                assert(tiles@.contains(q));
                let j = choose|j: int| 0 <= j < tiles@.len() && tiles@[j] == q;
                assert(self.furniture_tile_ok(tiles@[j]));
            }
        }
        true
    }

    /// Places a wall blueprint at `p` if the tile is free and the wall affordable.
    pub fn place_wall(&mut self, p: GridPosition) -> (r: bool)
        requires
            old(self).wf(),
            old(self).next_id < u64::MAX,
        ensures
            final(self).wf(),
            r == (old(self).free_for_wall(p) && old(self).money.amount >= cost_of(BuildingType::Wall)),
            r ==> final(self).placed_from(old(self), BuildingType::Wall, p, DoorOrientation::Horizontal, FurnitureOrientation::East),
            !r ==> *final(self) == *old(self),
    {
        if !(self.map.contains_pos(p) && !self.map.is_occupied(p) && !self.map.has_door(p)) {
            return false;
        }
        let cost = BuildingType::Wall.cost();
        if !self.money.can_afford(cost) {
            return false;
        }
        self.money.deduct(cost);
        let id = self.alloc_id();
        self.map.place_wall(p, id);
        self.push_site(id, p, BlueprintType::Wall);
        true
    }

    /// Places a floor blueprint at `p` unless the tile is in the occupied set.
    pub fn place_floor(&mut self, p: GridPosition, f: crate::building::FloorType) -> (r: bool)
        requires
            old(self).wf(),
            old(self).next_id < u64::MAX,
        ensures
            final(self).wf(),
            r == (old(self).free_for_floor(p) && old(self).money.amount >= cost_of(BuildingType::Floor(f))),
            r ==> final(self).placed_from(old(self), BuildingType::Floor(f), p, DoorOrientation::Horizontal, FurnitureOrientation::East),
            !r ==> *final(self) == *old(self),
    {
        if !(self.map.contains_pos(p) && !self.map.tile(p).occupied) {
            return false;
        }
        let cost = BuildingType::Floor(f).cost();
        if !self.money.can_afford(cost) {
            return false;
        }
        self.money.deduct(cost);
        let id = self.alloc_id();
        self.map.place_floor(p);
        self.push_site(id, p, BlueprintType::Floor(f));
        true
    }

    /// Places a window blueprint at `p`, replacing a wall standing there.
    pub fn place_window(&mut self, p: GridPosition) -> (r: bool)
        requires
            old(self).wf(),
            old(self).next_id < u64::MAX,
        ensures
            final(self).wf(),
            r == (old(self).replaceable(p) && old(self).money.amount >= cost_of(BuildingType::Window)),
            r ==> final(self).placed_from(old(self), BuildingType::Window, p, DoorOrientation::Horizontal, FurnitureOrientation::East),
            !r ==> *final(self) == *old(self),
    {
        if !self.map.contains_pos(p) {
            return false;
        }
        let t = self.map.tile(p);
        if t.door.is_some() || (t.occupied && t.wall.is_none()) {
            return false;
        }
        let cost = BuildingType::Window.cost();
        if !self.money.can_afford(cost) {
            return false;
        }
        self.money.deduct(cost);
        let id = self.alloc_id();
        self.remove_objects(t.wall, None);
        if t.wall.is_some() {
            self.map.clear_wall(p);
        }
        assert(self.map@[p] == wall_cleared(t));
        self.map.mark_occupied(p);
        self.push_site(id, p, BlueprintType::Window);
        proof {
            assert(self.map@ =~= old(self).map@.insert(p, marked_occupied(wall_cleared(old(self).map@[p]))));
        }
        true
    }

    /// Places a two-tile door blueprint at `p`, replacing walls on its tiles.
    pub fn place_door(&mut self, p: GridPosition, orientation: DoorOrientation) -> (r: bool)
        requires
            old(self).wf(),
            old(self).next_id < u64::MAX,
        ensures
            final(self).wf(),
            r == (old(self).free_for_door(p, orientation) && old(self).money.amount >= cost_of(BuildingType::Door)),
            r ==> final(self).placed_from(old(self), BuildingType::Door, p, orientation, FurnitureOrientation::East),
            !r ==> *final(self) == *old(self),
    {
        if !(p.x <= crate::building::MAX_FOOTPRINT_BASE && p.y <= crate::building::MAX_FOOTPRINT_BASE) {
            return false;
        }
        let tiles = Door::new(orientation).tiles_occupied(p);
        let a = tiles[0];
        let b = tiles[1];
        if !(self.map.contains_pos(a) && self.map.contains_pos(b)) {
            return false;
        }
        let ta = self.map.tile(a);
        let tb = self.map.tile(b);
        if ta.door.is_some() || (ta.occupied && ta.wall.is_none()) || tb.door.is_some() || (tb.occupied && tb.wall.is_none()) {
            return false;
        }
        let cost = BuildingType::Door.cost();
        if !self.money.can_afford(cost) {
            return false;
        }
        self.money.deduct(cost);
        let id = self.alloc_id();
        self.remove_objects(ta.wall, tb.wall);
        self.map.place_door_tile(a, id);
        self.map.place_door_tile(b, id);
        self.push_site(id, p, BlueprintType::Door(orientation));
        true
    }

    /// Places a piece of furniture directly as a finished object. A reception
    /// console needs a desk under it and takes no tiles of its own; any other
    /// piece needs a floor on every tile of its footprint, none of them
    /// occupied or a door, and then occupies them all.
    pub fn place_furniture(&mut self, t: FurnitureType, p: GridPosition, orientation: FurnitureOrientation) -> (r: bool)
        requires
            old(self).wf(),
            old(self).next_id < u64::MAX,
        ensures
            final(self).wf(),
            r == (old(self).free_for_furniture(t, p, orientation) && old(self).money.amount >= cost_of(
                BuildingType::Furniture(t),
            )),
            r ==> final(self).placed_from(old(self), BuildingType::Furniture(t), p, DoorOrientation::Horizontal, orientation),
            !r ==> *final(self) == *old(self),
    {
        if !self.map.contains_pos(p) {
            return false;
        }
        let is_console = match t {
            FurnitureType::ReceptionConsole => true,
            _ => false,
        };
        if is_console {
            if !self.desk_under(p) {
                return false;
            }
        } else {
            if !(p.x <= crate::building::MAX_FOOTPRINT_BASE && p.y <= crate::building::MAX_FOOTPRINT_BASE) {
                return false;
            }
            if !self.footprint_free(t, p, orientation) {
                return false;
            }
        }
        let cost = BuildingType::Furniture(t).cost();
        if !self.money.can_afford(cost) {
            return false;
        }
        self.money.deduct(cost);
        let id = self.alloc_id();
        if !is_console {
            let tiles = t.tiles_occupied(p, orientation);
            let ghost w = oriented_dims(t, orientation).0;
            let ghost h = oriented_dims(t, orientation).1;
            let ghost m0 = self.map@;
            let mut i: usize = 0;
            while i < tiles.len()
                invariant
                    self.wf(),
                    self.map.width == old(self).map.width,
                    self.map.height == old(self).map.height,
                    m0 == old(self).map@,
                    w == oriented_dims(t, orientation).0,
                    h == oriented_dims(t, orientation).1,
                    0 <= i <= tiles@.len(),
                    crate::building::lists_rect(tiles@, p, w, h),
                    forall|q: GridPosition| in_rect(p, w, h, q) ==> #[trigger] old(self).furniture_tile_ok(q),
                    forall|q: GridPosition| #[trigger] m0.contains_key(q) ==> self.map@[q] == if tiles@.take(i as int).contains(q) {
                        marked_occupied(m0[q])
                    } else {
                        m0[q]
                    },
                    self.settings == old(self).settings,
                    self.money.amount == old(self).money.amount - cost,
                    self.structures == old(self).structures,
                    self.blueprints == old(self).blueprints,
                    self.markers == old(self).markers,
                    self.workers == old(self).workers,
                    self.next_id == id + 1,
                decreases tiles@.len() - i,
            {
                let q = tiles[i];
                assert(in_rect(p, w, h, tiles@[i as int]));
                assert(old(self).furniture_tile_ok(q));
                assert(self.map@[q] == m0[q]) by {
                    if tiles@.take(i as int).contains(q) {
                        let j = choose|j: int| 0 <= j < i && #[trigger] tiles@.take(i as int)[j] == q;
                        assert(tiles@[j] == tiles@[i as int]);
                    }
                }
                self.map.mark_occupied(q);
                proof {
                    assert(tiles@.take(i as int + 1) =~= tiles@.take(i as int).push(q));
                    assert forall|r: GridPosition| #[trigger] m0.contains_key(r) implies self.map@[r] == if tiles@.take(i as int + 1).contains(r) {
                        marked_occupied(m0[r])
                    } else {
                        m0[r]
                    } by {
                        if r != q {
                            assert(tiles@.take(i as int + 1).contains(r) == tiles@.take(i as int).contains(r)) by {
                                if tiles@.take(i as int + 1).contains(r) {
                                    let j = choose|j: int| 0 <= j < i + 1 && #[trigger] tiles@.take(i as int + 1)[j] == r;
                                    assert(tiles@.take(i as int)[j] == r);
                                }
                            }
                        } else {
                            assert(tiles@.take(i as int + 1)[i as int] == q);
                        }
                    }
                }
                i = i + 1;
            }
            proof {
                assert(tiles@.take(i as int) =~= tiles@);
                assert forall|q: GridPosition| #[trigger] old(self).map.holds(q) implies self.map@[q] == if in_rect(p, w, h, q) {
                    marked_occupied(old(self).map@[q])
                } else {
                    old(self).map@[q]
                } by {
                    if !in_rect(p, w, h, q) && tiles@.contains(q) {
                        let j = choose|j: int| 0 <= j < tiles@.len() && tiles@[j] == q;
                        assert(in_rect(p, w, h, tiles@[j]));
                    }
                }
            }
        }
        self.structures.push(Structure { id, kind: StructureKind::Furniture(t, orientation), pos: p });
        true
    }

    /// Whether `b` could be placed at `p`, affordability aside; this is what
    /// a placement preview shows.
    pub fn can_place(&self, b: BuildingType, p: GridPosition, door: DoorOrientation, furn: FurnitureOrientation) -> (r: bool)
        requires
            self.wf(),
        ensures
            r == self.placement_allowed(b, p, door, furn),
    {
        if !self.map.contains_pos(p) {
            return false;
        }
        match b {
            BuildingType::Wall => !self.map.is_occupied(p) && !self.map.has_door(p),
            BuildingType::Floor(_) => !self.map.tile(p).occupied,
            BuildingType::Window => {
                let t = self.map.tile(p);
                !(t.door.is_some() || (t.occupied && t.wall.is_none()))
            },
            BuildingType::Door => {
                if !(p.x <= crate::building::MAX_FOOTPRINT_BASE && p.y <= crate::building::MAX_FOOTPRINT_BASE) {
                    return false;
                }
                let tiles = Door::new(door).tiles_occupied(p);
                let a = tiles[0];
                let q = tiles[1];
                if !self.map.contains_pos(q) {
                    return false;
                }
                let ta = self.map.tile(a);
                let tq = self.map.tile(q);
                !(ta.door.is_some() || (ta.occupied && ta.wall.is_none()) || tq.door.is_some() || (tq.occupied && tq.wall.is_none()))
            },
            BuildingType::Furniture(t) => {
                match t {
                    FurnitureType::ReceptionConsole => self.desk_under(p),
                    _ => {
                        if !(p.x <= crate::building::MAX_FOOTPRINT_BASE && p.y <= crate::building::MAX_FOOTPRINT_BASE) {
                            return false;
                        }
                        self.footprint_free(t, p, furn)
                    },
                }
            },
        }
    }

    /// A placement request: `true` when the building was placed and paid for.
    /// Doors use `door`, furniture uses `furn`. On `false` nothing changes.
    pub fn try_place(&mut self, b: BuildingType, p: GridPosition, door: DoorOrientation, furn: FurnitureOrientation) -> (r: bool)
        requires
            old(self).wf(),
            old(self).next_id < u64::MAX,
        ensures
            final(self).wf(),
            r == (old(self).placement_allowed(b, p, door, furn) && old(self).money.amount >= cost_of(b)),
            r ==> final(self).placed_from(old(self), b, p, door, furn),
            !r ==> *final(self) == *old(self),
    {
        match b {
            BuildingType::Wall => self.place_wall(p),
            BuildingType::Floor(f) => self.place_floor(p, f),
            BuildingType::Window => self.place_window(p),
            BuildingType::Door => self.place_door(p, door),
            BuildingType::Furniture(t) => self.place_furniture(t, p, furn),
        }
    }

    /// Drag placement of walls or floors: every tile of the rectangle spanned
    /// by `start` and `end`, column by column, gets the building if it can be
    /// placed there and paid for at its turn. Other building types place
    /// nothing. Returns how many were placed, each paid for at its cost.
    #[verifier::rlimit(80)]
    #[verifier::spinoff_prover]
    pub fn place_area(&mut self, b: BuildingType, start: GridPosition, end: GridPosition) -> (r: u64)
        requires
            old(self).wf(),
            crate::controls::in_side(start),
            crate::controls::in_side(end),
            old(self).next_id + 0x1000_0000 < u64::MAX,
        ensures
            final(self).wf(),
            r <= 4097 * 4097,
            final(self).blueprints@.len() == old(self).blueprints@.len() + r,
            final(self).next_id == old(self).next_id + r,
            final(self).money.amount == old(self).money.amount - r * cost_of(b),
            !(b matches BuildingType::Wall) && !(b matches BuildingType::Floor(_)) ==> r == 0 && *final(self) == *old(self),
            (b matches BuildingType::Wall) || (b matches BuildingType::Floor(_)) ==> exists|ss: Seq<Level>| #![trigger ss[0]] {
                let n = crate::controls::span(start.x, end.x) * crate::controls::span(start.y, end.y);
                &&& ss.len() == n + 1
                &&& ss[0] == *old(self)
                &&& ss[n] == *final(self)
                &&& forall|t: int| 0 <= t < n ==> #[trigger] area_step(ss[t], ss[t + 1], b, area_tile(start, end, t))
            },
            final(self).settings == old(self).settings,
            final(self).structures == old(self).structures,
            final(self).markers == old(self).markers,
            final(self).workers == old(self).workers,
    {
        let is_area = match b {
            BuildingType::Wall => true,
            BuildingType::Floor(_) => true,
            _ => false,
        };
        if !is_area {
            return 0;
        }
        let min_x = if start.x < end.x { start.x } else { end.x };
        let max_x = if start.x < end.x { end.x } else { start.x };
        let min_y = if start.y < end.y { start.y } else { end.y };
        let max_y = if start.y < end.y { end.y } else { start.y };
        let ghost c = cost_of(b) as int;
        let ghost h = crate::controls::span(start.y, end.y);
        let ghost mut ss: Seq<Level> = seq![*self];
        let mut count: u64 = 0;
        let mut x: i32 = min_x;
        while x <= max_x
            invariant
                h == max_y - min_y + 1,
                h == crate::controls::span(start.y, end.y),
                min_x == crate::controls::min_i(start.x, end.x),
                min_y == crate::controls::min_i(start.y, end.y),
                ss.len() == (x - min_x) * h + 1,
                ss[0] == *old(self),
                ss[ss.len() - 1] == *self,
                forall|t: int| 0 <= t < ss.len() - 1 ==> #[trigger] area_step(ss[t], ss[t + 1], b, area_tile(start, end, t)),
                self.wf(),
                0 <= min_x <= x <= max_x + 1,
                max_x <= crate::grid::MAX_GRID_SIDE,
                0 <= min_y <= max_y <= crate::grid::MAX_GRID_SIDE,
                c == cost_of(b),
                b matches BuildingType::Wall || b matches BuildingType::Floor(_),
                count <= (x - min_x) * 4097,
                self.blueprints@.len() == old(self).blueprints@.len() + count,
                self.next_id == old(self).next_id + count,
                old(self).next_id + 0x1000_0000 < u64::MAX,
                self.money.amount == old(self).money.amount - count * c,
                self.settings == old(self).settings,
                self.structures == old(self).structures,
                self.markers == old(self).markers,
                self.workers == old(self).workers,
            decreases max_x + 1 - x,
        {
            let mut y: i32 = min_y;
            let ghost c0 = count;
            while y <= max_y
                invariant
                    h == max_y - min_y + 1,
                    h == crate::controls::span(start.y, end.y),
                    min_x == crate::controls::min_i(start.x, end.x),
                    min_y == crate::controls::min_i(start.y, end.y),
                    ss.len() == (x - min_x) * h + (y - min_y) + 1,
                    ss[0] == *old(self),
                    ss[ss.len() - 1] == *self,
                    forall|t: int| 0 <= t < ss.len() - 1 ==> #[trigger] area_step(ss[t], ss[t + 1], b, area_tile(start, end, t)),
                    self.wf(),
                    0 <= min_x <= x <= max_x,
                    max_x <= crate::grid::MAX_GRID_SIDE,
                    0 <= min_y <= y <= max_y + 1,
                    max_y <= crate::grid::MAX_GRID_SIDE,
                    c == cost_of(b),
                    b matches BuildingType::Wall || b matches BuildingType::Floor(_),
                    c0 <= (x - min_x) * 4097,
                    count <= c0 + (y - min_y),
                    self.blueprints@.len() == old(self).blueprints@.len() + count,
                    self.next_id == old(self).next_id + count,
                    old(self).next_id + 0x1000_0000 < u64::MAX,
                    self.money.amount == old(self).money.amount - count * c,
                    self.settings == old(self).settings,
                    self.structures == old(self).structures,
                    self.markers == old(self).markers,
                    self.workers == old(self).workers,
                decreases max_y + 1 - y,
            {
                assert((x - min_x) * 4097 + 4097 <= 4097 * 4097) by (nonlinear_arith)
                    requires 0 <= x - min_x <= 4096;
                let ghost before = *self;
                let placed = match b {
                    BuildingType::Wall => self.place_wall(GridPosition { x, y }),
                    BuildingType::Floor(f) => self.place_floor(GridPosition { x, y }, f),
                    _ => false,
                };
                if placed {
                    proof {
                        let a0 = old(self).money.amount as int;
                        let n = count as int;
                        assert(self.money.amount == before.money.amount - c);
                        assert(a0 - n * c - c == a0 - (n + 1) * c) by (nonlinear_arith);
                    }
                    count = count + 1;
                }
                proof {
                    let t = (x - min_x) * h + (y - min_y);
                    vstd::arithmetic::div_mod::lemma_fundamental_div_mod_converse(t, h, (x - min_x) as int, (y - min_y) as int);
                    assert(area_tile(start, end, t) == GridPosition { x, y });
                    assert(area_step(before, *self, b, GridPosition { x, y }));
                    let prev = ss;
                    ss = ss.push(*self);
                    assert forall|q: int| 0 <= q < ss.len() - 1 implies #[trigger] area_step(ss[q], ss[q + 1], b, area_tile(start, end, q)) by {
                        if q < prev.len() - 1 {
                            assert(ss[q] == prev[q] && ss[q + 1] == prev[q + 1]);
                        }
                    }
                }
                y = y + 1;
            }
            assert(count <= (x + 1 - min_x) * 4097) by (nonlinear_arith)
                requires count <= c0 + (max_y + 1 - min_y), c0 <= (x - min_x) * 4097, max_y + 1 - min_y <= 4097;
            assert((x - min_x) * h + (max_y + 1 - min_y) == (x + 1 - min_x) * h) by (nonlinear_arith)
                requires h == max_y - min_y + 1;
            x = x + 1;
        }
        proof {
            assert(crate::controls::span(start.x, end.x) == max_x - min_x + 1);
        }
        count
    }
}

} // verus!
