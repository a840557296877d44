//! The occupancy ledger: what blocks building on each tile of the grid.
use vstd::prelude::*;
use crate::grid::{GridPosition, in_grid, MAX_GRID_SIDE};

verus! {

/// What the ledger records of one tile.
#[derive(Debug, Clone, Copy, PartialEq, Eq, Structural)]
pub struct TileRecord {
    /// Blocked for further placement (walls, windows, furniture).
    pub occupied: bool,
    /// The wall object standing on the tile.
    pub wall: Option<u64>,
    /// The door object covering the tile.
    pub door: Option<u64>,
    /// The tile has a floor.
    pub floor: bool,
}

pub open spec fn empty_tile() -> TileRecord {
    TileRecord { occupied: false, wall: None, door: None, floor: false }
}

/// A door tile is never in the occupied set.
pub open spec fn door_not_occupied(t: TileRecord) -> bool {
    t.door.is_some() ==> !t.occupied
}

pub open spec fn wall_placed(t: TileRecord, id: u64) -> TileRecord {
    TileRecord { occupied: true, wall: Some(id), ..t }
}

pub open spec fn wall_relinked(t: TileRecord, id: u64) -> TileRecord {
    TileRecord { wall: Some(id), ..t }
}

pub open spec fn wall_cleared(t: TileRecord) -> TileRecord {
    TileRecord { occupied: false, wall: None, ..t }
}

/// A door takes the tile; a wall standing there is removed with its occupancy.
pub open spec fn door_placed(t: TileRecord, id: u64) -> TileRecord {
    TileRecord { occupied: if t.wall.is_some() { false } else { t.occupied }, wall: None, door: Some(id), floor: t.floor }
}

pub open spec fn door_cleared(t: TileRecord) -> TileRecord {
    TileRecord { door: None, ..t }
}

pub open spec fn floor_placed(t: TileRecord) -> TileRecord {
    TileRecord { floor: true, ..t }
}

pub open spec fn marked_occupied(t: TileRecord) -> TileRecord {
    TileRecord { occupied: true, ..t }
}

pub open spec fn occupancy_cleared(t: TileRecord) -> TileRecord {
    TileRecord { occupied: false, ..t }
}

/// The ledger of one level, one record per tile of a `width` by `height` grid.
pub struct BuildingMap {
    pub width: i32,
    pub height: i32,
    /// Row `y`, column `x`.
    pub cells: Vec<Vec<TileRecord>>,
}

impl View for BuildingMap {
    type V = Map<GridPosition, TileRecord>;

    open spec fn view(&self) -> Map<GridPosition, TileRecord> {
        Map::new(
            |p: GridPosition| in_grid(p, self.width as int, self.height as int),
            |p: GridPosition| self.cells@[p.y as int]@[p.x as int],
        )
    }
}

impl BuildingMap {
    pub open spec fn shape_ok(&self) -> bool {
        &&& 0 < self.width <= MAX_GRID_SIDE
        &&& 0 < self.height <= MAX_GRID_SIDE
        &&& self.cells@.len() == self.height
        &&& forall|y: int| 0 <= y < self.height ==> (#[trigger] self.cells@[y])@.len() == self.width
    }

    pub open spec fn wf(&self) -> bool {
        &&& self.shape_ok()
        &&& forall|p: GridPosition| #[trigger] self@.contains_key(p) ==> door_not_occupied(self@[p])
    }

    pub open spec fn holds(&self, p: GridPosition) -> bool {
        self@.contains_key(p)
    }

    /// Occupied in the ledger's sense: in the occupied set, or under a wall.
    pub open spec fn occupied_at(&self, p: GridPosition) -> bool {
        self.holds(p) && (self@[p].occupied || self@[p].wall.is_some())
    }

    pub open spec fn door_at(&self, p: GridPosition) -> bool {
        self.holds(p) && self@[p].door.is_some()
    }

    /// An empty ledger for a grid of the given size.
    pub fn new(width: i32, height: i32) -> (r: BuildingMap)
        requires
            0 < width <= MAX_GRID_SIDE,
            0 < height <= MAX_GRID_SIDE,
        ensures
            r.wf(),
            r.width == width,
            r.height == height,
            forall|p: GridPosition| #[trigger] r.holds(p) == in_grid(p, width as int, height as int),
            forall|p: GridPosition| r.holds(p) ==> #[trigger] r@[p] == empty_tile(),
    {
        let mut cells: Vec<Vec<TileRecord>> = Vec::new();
        let mut y: i32 = 0;
        while y < height
            invariant
                0 <= y <= height,
                0 < width <= MAX_GRID_SIDE,
                cells@.len() == y,
                forall|j: int| 0 <= j < y ==> (#[trigger] cells@[j])@.len() == width,
                forall|j: int, i: int| 0 <= j < y && 0 <= i < width ==> #[trigger] cells@[j]@[i] == empty_tile(),
            decreases height - y,
        {
            let mut row: Vec<TileRecord> = Vec::new();
            let mut x: i32 = 0;
            while x < width
                invariant
                    0 <= x <= width,
                    row@.len() == x,
                    forall|i: int| 0 <= i < x ==> row@[i] == empty_tile(),
                decreases width - x,
            {
                row.push(TileRecord { occupied: false, wall: None, door: None, floor: false });
                x = x + 1;
            }
            cells.push(row);
            y = y + 1;
        }
        BuildingMap { width, height, cells }
    }

    pub fn contains_pos(&self, p: GridPosition) -> (r: bool)
        ensures
            r == self.holds(p),
    {
        0 <= p.x && p.x < self.width && 0 <= p.y && p.y < self.height
    }

    /// The record of a tile of the grid.
    pub fn tile(&self, p: GridPosition) -> (r: TileRecord)
        requires
            self.shape_ok(),
            self.holds(p),
        ensures
            r == self@[p],
    {
        self.cells[p.y as usize][p.x as usize]
    }

    /// The record of any tile; a tile off the grid holds nothing.
    pub fn tile_or_empty(&self, p: GridPosition) -> (r: TileRecord)
        requires
            self.shape_ok(),
        ensures
            r == if self.holds(p) { self@[p] } else { empty_tile() },
    {
        if self.contains_pos(p) {
            self.tile(p)
        } else {
            TileRecord { occupied: false, wall: None, door: None, floor: false }
        }
    }

    /// In the occupied set, or under a wall.
    pub fn is_occupied(&self, pos: GridPosition) -> (r: bool)
        requires
            self.shape_ok(),
        ensures
            r == self.occupied_at(pos),
    {
        let t = self.tile_or_empty(pos);
        t.occupied || t.wall.is_some()
    }

    pub fn has_door(&self, pos: GridPosition) -> (r: bool)
        requires
            self.shape_ok(),
        ensures
            r == self.door_at(pos),
    {
        self.tile_or_empty(pos).door.is_some()
    }

    /// Replaces the record of one tile.
    pub fn set_tile(&mut self, p: GridPosition, t: TileRecord)
        requires
            old(self).wf(),
            old(self).holds(p),
            door_not_occupied(t),
        ensures
            final(self).wf(),
            final(self).width == old(self).width,
            final(self).height == old(self).height,
            final(self)@ == old(self)@.insert(p, t),
    {
        let ghost before = self@;
        self.cells[p.y as usize][p.x as usize] = t;
        proof {
            assert(self@ =~= before.insert(p, t));
        }
    }

    pub fn place_wall(&mut self, p: GridPosition, id: u64)
        requires
            old(self).wf(),
            old(self).holds(p),
            !old(self).door_at(p),
        ensures
            final(self).wf(),
            final(self).width == old(self).width,
            final(self).height == old(self).height,
            final(self)@ == old(self)@.insert(p, wall_placed(old(self)@[p], id)),
    {
        let t = self.tile(p);
        self.set_tile(p, TileRecord { occupied: true, wall: Some(id), ..t });
    }

    pub fn relink_wall(&mut self, p: GridPosition, id: u64)
        requires
            old(self).wf(),
            old(self).holds(p),
        ensures
            final(self).wf(),
            final(self).width == old(self).width,
            final(self).height == old(self).height,
            final(self)@ == old(self)@.insert(p, wall_relinked(old(self)@[p], id)),
    {
        let t = self.tile(p);
        self.set_tile(p, TileRecord { wall: Some(id), ..t });
    }

    pub fn clear_wall(&mut self, p: GridPosition)
        requires
            old(self).wf(),
            old(self).holds(p),
        ensures
            final(self).wf(),
            final(self).width == old(self).width,
            final(self).height == old(self).height,
            final(self)@ == old(self)@.insert(p, wall_cleared(old(self)@[p])),
    {
        let t = self.tile(p);
        self.set_tile(p, TileRecord { occupied: false, wall: None, ..t });
    }

    pub fn place_door_tile(&mut self, p: GridPosition, id: u64)
        requires
            old(self).wf(),
            old(self).holds(p),
            old(self)@[p].wall.is_none() ==> !old(self)@[p].occupied,
        ensures
            final(self).wf(),
            final(self).width == old(self).width,
            final(self).height == old(self).height,
            final(self)@ == old(self)@.insert(p, door_placed(old(self)@[p], id)),
    {
        let t = self.tile(p);
        let occupied = if t.wall.is_some() { false } else { t.occupied };
        self.set_tile(p, TileRecord { occupied, wall: None, door: Some(id), floor: t.floor });
    }

    pub fn clear_door(&mut self, p: GridPosition)
        requires
            old(self).wf(),
            old(self).holds(p),
        ensures
            final(self).wf(),
            final(self).width == old(self).width,
            final(self).height == old(self).height,
            final(self)@ == old(self)@.insert(p, door_cleared(old(self)@[p])),
    {
        let t = self.tile(p);
        self.set_tile(p, TileRecord { door: None, ..t });
    }

    pub fn place_floor(&mut self, p: GridPosition)
        requires
            old(self).wf(),
            old(self).holds(p),
        ensures
            final(self).wf(),
            final(self).width == old(self).width,
            final(self).height == old(self).height,
            final(self)@ == old(self)@.insert(p, floor_placed(old(self)@[p])),
    {
        let t = self.tile(p);
        self.set_tile(p, TileRecord { floor: true, ..t });
    }

    pub fn mark_occupied(&mut self, p: GridPosition)
        requires
            old(self).wf(),
            old(self).holds(p),
            !old(self).door_at(p),
        ensures
            final(self).wf(),
            final(self).width == old(self).width,
            final(self).height == old(self).height,
            final(self)@ == old(self)@.insert(p, marked_occupied(old(self)@[p])),
    {
        let t = self.tile(p);
        self.set_tile(p, TileRecord { occupied: true, ..t });
    }

    pub fn clear_occupied(&mut self, p: GridPosition)
        requires
            old(self).wf(),
            old(self).holds(p),
        ensures
            final(self).wf(),
            final(self).width == old(self).width,
            final(self).height == old(self).height,
            final(self)@ == old(self)@.insert(p, occupancy_cleared(old(self)@[p])),
    {
        let t = self.tile(p);
        self.set_tile(p, TileRecord { occupied: false, ..t });
    }
}

/// In every well-formed ledger, no door tile is in the occupied set.
pub proof fn lemma_doors_never_occupied(m: BuildingMap, p: GridPosition)
    requires
        m.wf(),
        m.door_at(p),
    ensures
        !m@[p].occupied,
{
}

/// Placing a wall on a free tile, finishing it (which relinks the tile to the
/// finished wall), then deconstructing it leaves the ledger as it was.
pub proof fn lemma_wall_round_trip(v: Map<GridPosition, TileRecord>, p: GridPosition, blueprint: u64, finished: u64)
    requires
        v.contains_key(p),
        !v[p].occupied,
        v[p].wall.is_none(),
    ensures
        ({
            let placed = v.insert(p, wall_placed(v[p], blueprint));
            let built = placed.insert(p, wall_relinked(placed[p], finished));
            built.insert(p, wall_cleared(built[p]))
        }) == v,
{
    let placed = v.insert(p, wall_placed(v[p], blueprint));
    let built = placed.insert(p, wall_relinked(placed[p], finished));
    let cleared = built.insert(p, wall_cleared(built[p]));
    assert(cleared[p] == v[p]);
    assert(cleared =~= v);
}

} // verus!
