//! Furniture kinds, orientations and footprints.
use vstd::prelude::*;
use crate::grid::GridPosition;
use crate::building::{fits_footprint, lists_rect, rect_tiles};

verus! {

#[derive(Debug, Clone, Copy, PartialEq, Eq, Structural)]
pub enum BedType {
    Single,
    Double,
}

#[derive(Debug, Clone, Copy, PartialEq, Eq, Structural)]
pub enum FurnitureOrientation {
    East,
    South,
    West,
    North,
}

#[derive(Debug, Clone, Copy, PartialEq, Eq, Structural)]
pub enum FurnitureType {
    Bed(BedType),
    Desk,
    Chair,
    Dresser,
    Nightstand,
    Toilet,
    Sink,
    Tub,
    ReceptionConsole,
}

#[derive(Debug, Clone, Copy, PartialEq, Eq, Structural)]
pub struct Bed {
    pub bed_type: BedType,
}

pub open spec fn base_dims(t: FurnitureType) -> (int, int) {
    match t {
        FurnitureType::Bed(BedType::Single) => (2, 3),
        FurnitureType::Bed(BedType::Double) => (4, 4),
        FurnitureType::Desk => (2, 2),
        FurnitureType::Chair => (1, 1),
        FurnitureType::Dresser => (2, 2),
        FurnitureType::Nightstand => (1, 1),
        FurnitureType::Toilet => (2, 2),
        FurnitureType::Sink => (1, 1),
        FurnitureType::Tub => (2, 4),
        FurnitureType::ReceptionConsole => (1, 1),
    }
}

pub open spec fn horizontal(o: FurnitureOrientation) -> bool {
    o == FurnitureOrientation::East || o == FurnitureOrientation::West
}

/// Width and height on the grid: the base dimensions, swapped when facing north or south.
pub open spec fn oriented_dims(t: FurnitureType, o: FurnitureOrientation) -> (int, int) {
    if horizontal(o) {
        base_dims(t)
    } else {
        (base_dims(t).1, base_dims(t).0)
    }
}

pub open spec fn furniture_label(t: FurnitureType) -> &'static str {
    match t {
        FurnitureType::Bed(BedType::Single) => "Single Bed",
        FurnitureType::Bed(BedType::Double) => "Double Bed",
        FurnitureType::Desk => "Desk",
        FurnitureType::Chair => "Chair",
        FurnitureType::Dresser => "Dresser",
        FurnitureType::Nightstand => "Nightstand",
        FurnitureType::Toilet => "Toilet",
        FurnitureType::Sink => "Sink",
        FurnitureType::Tub => "Tub",
        FurnitureType::ReceptionConsole => "Reception Console",
    }
}

/// The map symbol of each kind of furniture.
pub open spec fn furniture_glyph(t: FurnitureType) -> char {
    match t {
        FurnitureType::Bed(_) => '\u{25AC}',
        FurnitureType::Desk => '\u{2550}',
        FurnitureType::Chair => '\u{03C0}',
        FurnitureType::Dresser => '\u{2593}',
        FurnitureType::Nightstand => '\u{25A1}',
        FurnitureType::Toilet => '\u{2565}',
        FurnitureType::Sink => '\u{25CB}',
        FurnitureType::Tub => '\u{224B}',
        FurnitureType::ReceptionConsole => '\u{25A3}',
    }
}

impl FurnitureOrientation {
    /// The orientation a quarter turn clockwise.
    pub fn next(self) -> (r: FurnitureOrientation)
        ensures
            r == match self {
                FurnitureOrientation::East => FurnitureOrientation::South,
                FurnitureOrientation::South => FurnitureOrientation::West,
                FurnitureOrientation::West => FurnitureOrientation::North,
                FurnitureOrientation::North => FurnitureOrientation::East,
            },
    {
        match self {
            FurnitureOrientation::East => FurnitureOrientation::South,
            FurnitureOrientation::South => FurnitureOrientation::West,
            FurnitureOrientation::West => FurnitureOrientation::North,
            FurnitureOrientation::North => FurnitureOrientation::East,
        }
    }

    pub fn is_horizontal(&self) -> (r: bool)
        ensures
            r == horizontal(*self),
    {
        match self {
            FurnitureOrientation::East | FurnitureOrientation::West => true,
            _ => false,
        }
    }
}

impl Bed {
    pub fn new(bed_type: BedType) -> (r: Bed)
        ensures
            r.bed_type == bed_type,
    {
        Bed { bed_type }
    }

    /// The tiles of the bed laid out east-west from `base_pos`.
    pub fn tiles_occupied(&self, base_pos: GridPosition) -> (r: Vec<GridPosition>)
        requires
            fits_footprint(base_pos),
        ensures
            lists_rect(r@, base_pos, base_dims(FurnitureType::Bed(self.bed_type)).0, base_dims(FurnitureType::Bed(self.bed_type)).1),
    {
        let (w, h) = FurnitureType::Bed(self.bed_type).base_dimensions();
        rect_tiles(base_pos, w, h)
    }
}

impl FurnitureType {
    pub fn base_dimensions(&self) -> (r: (i32, i32))
        ensures
            r.0 == base_dims(*self).0,
            r.1 == base_dims(*self).1,
            1 <= r.0 <= 4,
            1 <= r.1 <= 4,
    {
        match self {
            FurnitureType::Bed(BedType::Single) => (2, 3),
            FurnitureType::Bed(BedType::Double) => (4, 4),
            FurnitureType::Desk => (2, 2),
            FurnitureType::Chair => (1, 1),
            FurnitureType::Dresser => (2, 2),
            FurnitureType::Nightstand => (1, 1),
            FurnitureType::Toilet => (2, 2),
            FurnitureType::Sink => (1, 1),
            FurnitureType::Tub => (2, 4),
            FurnitureType::ReceptionConsole => (1, 1),
        }
    }

    pub fn oriented_dimensions(&self, orientation: FurnitureOrientation) -> (r: (i32, i32))
        ensures
            r.0 == oriented_dims(*self, orientation).0,
            r.1 == oriented_dims(*self, orientation).1,
            1 <= r.0 <= 4,
            1 <= r.1 <= 4,
    {
        let (w, h) = self.base_dimensions();
        if orientation.is_horizontal() {
            (w, h)
        } else {
            (h, w)
        }
    }

    /// Every tile the piece covers when its low corner is at `base_pos`.
    pub fn tiles_occupied(&self, base_pos: GridPosition, orientation: FurnitureOrientation) -> (r: Vec<GridPosition>)
        requires
            fits_footprint(base_pos),
        ensures
            lists_rect(r@, base_pos, oriented_dims(*self, orientation).0, oriented_dims(*self, orientation).1),
    {
        let (w, h) = self.oriented_dimensions(orientation);
        rect_tiles(base_pos, w, h)
    }

    pub fn name(&self) -> (r: &'static str)
        ensures
            r == furniture_label(*self),
    {
        match self {
            FurnitureType::Bed(BedType::Single) => "Single Bed",
            FurnitureType::Bed(BedType::Double) => "Double Bed",
            FurnitureType::Desk => "Desk",
            FurnitureType::Chair => "Chair",
            FurnitureType::Dresser => "Dresser",
            FurnitureType::Nightstand => "Nightstand",
            FurnitureType::Toilet => "Toilet",
            FurnitureType::Sink => "Sink",
            FurnitureType::Tub => "Tub",
            FurnitureType::ReceptionConsole => "Reception Console",
        }
    }

    pub fn ascii_char(&self) -> (r: char)
        ensures
            r == furniture_glyph(*self),
    {
        match self {
            FurnitureType::Bed(_) => '\u{25AC}',
            FurnitureType::Desk => '\u{2550}',
            FurnitureType::Chair => '\u{03C0}',
            FurnitureType::Dresser => '\u{2593}',
            FurnitureType::Nightstand => '\u{25A1}',
            FurnitureType::Toilet => '\u{2565}',
            FurnitureType::Sink => '\u{25CB}',
            FurnitureType::Tub => '\u{224B}',
            FurnitureType::ReceptionConsole => '\u{25A3}',
        }
    }
}

} // verus!
