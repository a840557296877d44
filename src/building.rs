//! Structures: doors, floors, and what a footprint of tiles is.
use vstd::prelude::*;
use crate::grid::GridPosition;

verus! {

/// Longest side of a rectangle of tiles that can be listed.
pub const MAX_RECT_SIDE: i32 = 8192;

/// Largest coordinate from which a footprint of up to four tiles still fits in `i32`.
pub const MAX_FOOTPRINT_BASE: i32 = 0x7fff_fff0;

#[derive(Debug, Clone, Copy, PartialEq, Eq, Structural)]
pub enum DoorOrientation {
    /// Two tiles wide, left to right.
    Horizontal,
    /// Two tiles tall, bottom to top.
    Vertical,
}

#[derive(Debug, Clone, Copy, PartialEq, Eq, Structural)]
pub enum DoorState {
    Closed,
    Open,
}

#[derive(Debug, Clone, Copy, PartialEq, Eq, Structural)]
pub enum FloorType {
    Wood,
    Stone,
    Carpet,
    Tile,
}

#[derive(Debug, Clone, Copy, PartialEq, Eq, Structural)]
pub struct Door {
    pub orientation: DoorOrientation,
    pub state: DoorState,
}

/// Whether `p` lies in the `w` by `h` rectangle whose low corner is `base`.
pub open spec fn in_rect(base: GridPosition, w: int, h: int, p: GridPosition) -> bool {
    base.x <= p.x < base.x + w && base.y <= p.y < base.y + h
}

/// `tiles` lists each tile of the `w` by `h` rectangle at `base` exactly once.
pub open spec fn lists_rect(tiles: Seq<GridPosition>, base: GridPosition, w: int, h: int) -> bool {
    &&& tiles.len() == w * h
    &&& tiles.no_duplicates()
    &&& forall|i: int| 0 <= i < tiles.len() ==> in_rect(base, w, h, #[trigger] tiles[i])
    &&& forall|p: GridPosition| in_rect(base, w, h, p) ==> tiles.contains(p)
}

pub open spec fn fits_footprint(base: GridPosition) -> bool {
    base.x <= MAX_FOOTPRINT_BASE && base.y <= MAX_FOOTPRINT_BASE
}

/// Width and height of a door's footprint.
pub open spec fn door_dims(o: DoorOrientation) -> (int, int) {
    match o {
        DoorOrientation::Horizontal => (2, 1),
        DoorOrientation::Vertical => (1, 2),
    }
}

/// The second tile of a door whose first tile is `base`.
pub open spec fn door_second(base: GridPosition, o: DoorOrientation) -> GridPosition {
    match o {
        DoorOrientation::Horizontal => GridPosition { x: (base.x + 1) as i32, y: base.y },
        DoorOrientation::Vertical => GridPosition { x: base.x, y: (base.y + 1) as i32 },
    }
}

/// The tiles of the rectangle `w` by `h` at `base`, column by column.
pub fn rect_tiles(base: GridPosition, w: i32, h: i32) -> (r: Vec<GridPosition>)
    requires
        0 <= w <= MAX_RECT_SIDE,
        0 <= h <= MAX_RECT_SIDE,
        base.x + w <= i32::MAX,
        base.y + h <= i32::MAX,
    ensures
        lists_rect(r@, base, w as int, h as int),
{
    let mut tiles: Vec<GridPosition> = Vec::new();
    let mut dx: i32 = 0;
    while dx < w
        invariant
            0 <= dx <= w <= MAX_RECT_SIDE,
            0 <= h <= MAX_RECT_SIDE,
            base.x + w <= i32::MAX,
            base.y + h <= i32::MAX,
            tiles@.len() == dx * h,
            tiles@.no_duplicates(),
            forall|i: int| 0 <= i < tiles@.len() ==> in_rect(base, dx as int, h as int, #[trigger] tiles@[i]),
            forall|p: GridPosition| in_rect(base, dx as int, h as int, p) ==> tiles@.contains(p),
        decreases w - dx,
    {
        let mut dy: i32 = 0;
        let ghost before = tiles@;
        while dy < h
            invariant
                0 <= dx < w <= MAX_RECT_SIDE,
                0 <= dy <= h <= MAX_RECT_SIDE,
                base.x + w <= i32::MAX,
                base.y + h <= i32::MAX,
                before.len() == dx * h,
                tiles@.len() == before.len() + dy,
                tiles@.no_duplicates(),
                forall|i: int| 0 <= i < before.len() ==> tiles@[i] == before[i],
                forall|i: int| 0 <= i < before.len() ==> in_rect(base, dx as int, h as int, #[trigger] before[i]),
                forall|i: int| before.len() <= i < tiles@.len() ==> (#[trigger] tiles@[i]) == (GridPosition {
                    x: (base.x + dx) as i32,
                    y: (base.y + (i - before.len())) as i32,
                }),
                forall|p: GridPosition| in_rect(base, dx as int, h as int, p) ==> before.contains(p),
            decreases h - dy,
        {
            let p = GridPosition { x: base.x + dx, y: base.y + dy };
            proof {
                assert forall|i: int| 0 <= i < tiles@.len() implies tiles@[i] != p by {
                    if i < before.len() {
                        assert(tiles@[i] == before[i]);
                        assert(in_rect(base, dx as int, h as int, before[i]));
                    }
                }
            }
            tiles.push(p);
            dy = dy + 1;
        }
        proof {
            assert(tiles@.len() == (dx + 1) * h) by (nonlinear_arith)
                requires tiles@.len() == before.len() + h, before.len() == dx * h;
            assert forall|i: int| 0 <= i < tiles@.len() implies in_rect(base, dx + 1, h as int, #[trigger] tiles@[i]) by {
                if i < before.len() {
                    assert(tiles@[i] == before[i]);
                    assert(in_rect(base, dx as int, h as int, before[i]));
                }
            }
            assert forall|p: GridPosition| in_rect(base, dx + 1, h as int, p) implies tiles@.contains(p) by {
                if p.x < base.x + dx {
                    assert(in_rect(base, dx as int, h as int, p));
                    assert(before.contains(p));
                    let k = choose|k: int| 0 <= k < before.len() && before[k] == p;
                    assert(tiles@[k] == p);
                } else {
                    let k = before.len() + (p.y - base.y);
                    assert(tiles@[k] == p);
                }
            }
        }
        dx = dx + 1;
    }
    tiles
}

impl Door {
    pub fn new(orientation: DoorOrientation) -> (r: Door)
        ensures
            r.orientation == orientation,
            r.state == DoorState::Closed,
    {
        Door { orientation, state: DoorState::Closed }
    }

    /// The two tiles a door covers: `base_pos`, and its neighbour to the
    /// right (horizontal) or above (vertical).
    pub fn tiles_occupied(&self, base_pos: GridPosition) -> (r: Vec<GridPosition>)
        requires
            fits_footprint(base_pos),
        ensures
            r@ == seq![base_pos, door_second(base_pos, self.orientation)],
    {
        match self.orientation {
            DoorOrientation::Horizontal => vec![base_pos, GridPosition { x: base_pos.x + 1, y: base_pos.y }],
            DoorOrientation::Vertical => vec![base_pos, GridPosition { x: base_pos.x, y: base_pos.y + 1 }],
        }
    }
}

} // verus!
