//! Input state around the map: blocking by UI panels, drag rectangles,
//! placement orientations and the game speed.
use vstd::prelude::*;
use crate::grid::{GridPosition, MAX_GRID_SIDE};
use crate::building::{DoorOrientation, lists_rect, rect_tiles};
use crate::furniture::FurnitureOrientation;

verus! {

/// Whether input over the map is blocked by a panel.
#[derive(Debug, Clone, Copy, PartialEq, Eq, Structural)]
pub struct UiInputBlocker {
    pub block_world_input: bool,
    pub speed_controls_blocking: bool,
    pub context_menu_blocking: bool,
}

impl UiInputBlocker {
    pub fn default() -> (r: UiInputBlocker)
        ensures
            !r.block_world_input && !r.speed_controls_blocking && !r.context_menu_blocking,
    {
        UiInputBlocker { block_world_input: false, speed_controls_blocking: false, context_menu_blocking: false }
    }

    /// Map input is blocked while either panel blocks it.
    pub fn recompute(&mut self)
        ensures
            final(self).block_world_input == (old(self).speed_controls_blocking || old(self).context_menu_blocking),
            final(self).speed_controls_blocking == old(self).speed_controls_blocking,
            final(self).context_menu_blocking == old(self).context_menu_blocking,
    {
        self.block_world_input = self.speed_controls_blocking || self.context_menu_blocking;
    }
}

/// A drag of the mouse over the grid, from `start_pos` to `current_pos`.
#[derive(Debug, Clone, Copy, PartialEq, Eq, Structural)]
pub struct DragState {
    pub is_dragging: bool,
    pub start_pos: Option<GridPosition>,
    pub current_pos: Option<GridPosition>,
}

pub open spec fn in_side(p: GridPosition) -> bool {
    0 <= p.x <= MAX_GRID_SIDE && 0 <= p.y <= MAX_GRID_SIDE
}

pub open spec fn min_i(a: i32, b: i32) -> i32 {
    if a < b { a } else { b }
}

pub open spec fn span(a: i32, b: i32) -> int {
    if a < b { b - a + 1 } else { a - b + 1 }
}

impl DragState {
    pub fn default() -> (r: DragState)
        ensures
            !r.is_dragging && r.start_pos.is_none() && r.current_pos.is_none(),
    {
        DragState { is_dragging: false, start_pos: None, current_pos: None }
    }

    pub fn start(&mut self, pos: GridPosition)
        ensures
            *final(self) == (DragState { is_dragging: true, start_pos: Some(pos), current_pos: Some(pos) }),
    {
        self.is_dragging = true;
        self.start_pos = Some(pos);
        self.current_pos = Some(pos);
    }

    /// Moves the drag's end while dragging; otherwise nothing changes.
    pub fn update(&mut self, pos: GridPosition)
        ensures
            *final(self) == if old(self).is_dragging {
                DragState { current_pos: Some(pos), ..*old(self) }
            } else {
                *old(self)
            },
    {
        if self.is_dragging {
            self.current_pos = Some(pos);
        }
    }

    /// Ends a drag, handing back its two corners if both were set.
    pub fn end(&mut self) -> (r: Option<(GridPosition, GridPosition)>)
        ensures
            old(self).is_dragging ==> *final(self) == DragState::default_spec(),
            !old(self).is_dragging ==> *final(self) == *old(self) && r.is_none(),
            old(self).is_dragging ==> r == match (old(self).start_pos, old(self).current_pos) {
                (Some(a), Some(b)) => Some((a, b)),
                _ => None,
            },
    {
        if self.is_dragging {
            let result = match (self.start_pos, self.current_pos) {
                (Some(a), Some(b)) => Some((a, b)),
                _ => None,
            };
            self.is_dragging = false;
            self.start_pos = None;
            self.current_pos = None;
            result
        } else {
            None
        }
    }

    pub open spec fn default_spec() -> DragState {
        DragState { is_dragging: false, start_pos: None, current_pos: None }
    }

    /// Every tile of the rectangle spanned by the drag, column by column;
    /// empty unless both corners are set.
    pub fn get_drag_positions(&self) -> (r: Vec<GridPosition>)
        requires
            self.start_pos matches Some(p) ==> in_side(p),
            self.current_pos matches Some(p) ==> in_side(p),
        ensures
            match (self.start_pos, self.current_pos) {
                (Some(a), Some(b)) => lists_rect(
                    r@,
                    GridPosition { x: min_i(a.x, b.x), y: min_i(a.y, b.y) },
                    span(a.x, b.x),
                    span(a.y, b.y),
                ),
                _ => r@.len() == 0,
            },
    {
        match (self.start_pos, self.current_pos) {
            (Some(a), Some(b)) => {
                let min_x = if a.x < b.x { a.x } else { b.x };
                let max_x = if a.x < b.x { b.x } else { a.x };
                let min_y = if a.y < b.y { a.y } else { b.y };
                let max_y = if a.y < b.y { b.y } else { a.y };
                rect_tiles(GridPosition { x: min_x, y: min_y }, max_x - min_x + 1, max_y - min_y + 1)
            },
            _ => Vec::new(),
        }
    }
}

/// The orientation new doors are placed with.
#[derive(Debug, Clone, Copy, PartialEq, Eq, Structural)]
pub struct DoorPlacementState {
    pub orientation: DoorOrientation,
}

impl DoorPlacementState {
    pub fn default() -> (r: DoorPlacementState)
        ensures
            r.orientation == DoorOrientation::Horizontal,
    {
        DoorPlacementState { orientation: DoorOrientation::Horizontal }
    }
}

/// The orientation new furniture is placed with.
#[derive(Debug, Clone, Copy, PartialEq, Eq, Structural)]
pub struct FurniturePlacementState {
    pub orientation: FurnitureOrientation,
}

impl FurniturePlacementState {
    pub fn default() -> (r: FurniturePlacementState)
        ensures
            r.orientation == FurnitureOrientation::East,
    {
        FurniturePlacementState { orientation: FurnitureOrientation::East }
    }
}

#[derive(Debug, Clone, Copy, PartialEq, Eq, Structural)]
pub enum SpeedOption {
    Normal,
    Fast,
    VeryFast,
}

/// How fast simulated time runs against real time, as a whole multiple.
#[derive(Debug, Clone, Copy, PartialEq, Eq, Structural)]
pub struct TimeSpeed {
    pub multiplier: u32,
}

pub open spec fn multiplier_of(s: SpeedOption) -> u32 {
    match s {
        SpeedOption::Normal => 1,
        SpeedOption::Fast => 2,
        SpeedOption::VeryFast => 3,
    }
}

impl TimeSpeed {
    pub fn normal() -> (r: TimeSpeed)
        ensures
            r.multiplier == 1,
    {
        TimeSpeed { multiplier: 1 }
    }

    pub fn fast() -> (r: TimeSpeed)
        ensures
            r.multiplier == 2,
    {
        TimeSpeed { multiplier: 2 }
    }

    pub fn very_fast() -> (r: TimeSpeed)
        ensures
            r.multiplier == 3,
    {
        TimeSpeed { multiplier: 3 }
    }

    pub fn set_speed(&mut self, speed: SpeedOption)
        ensures
            final(self).multiplier == multiplier_of(speed),
    {
        self.multiplier = match speed {
            SpeedOption::Normal => 1,
            SpeedOption::Fast => 2,
            SpeedOption::VeryFast => 3,
        };
    }

    /// The simulated length of a real time step.
    pub fn scale(&self, dt_ms: u64) -> (r: u64)
        requires
            self.multiplier <= 3,
            dt_ms <= u64::MAX / 3,
        ensures
            r == dt_ms * self.multiplier,
    {
        assert(dt_ms * self.multiplier <= u64::MAX) by (nonlinear_arith)
            requires self.multiplier <= 3, dt_ms <= u64::MAX / 3;
        dt_ms * (self.multiplier as u64)
    }
}

} // verus!
