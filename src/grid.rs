//! Tile coordinates, world coordinates and the conversions between them.
//!
//! World coordinates are integer world units. The grid is centred on the
//! world origin, and each tile is `tile_size` units wide; `tile_size` is
//! even, so that tile centres fall on whole units.
use vstd::prelude::*;

verus! {

pub const TILE_SIZE: i32 = 16;

pub const GRID_WIDTH: i32 = 100;

pub const GRID_HEIGHT: i32 = 100;

/// Largest tile size, grid width and grid height that the conversions accept.
pub const MAX_TILE_SIZE: i32 = 1024;

pub const MAX_GRID_SIDE: i32 = 4096;

/// A tile of the grid.
#[derive(Debug, Clone, Copy, PartialEq, Eq, Structural)]
pub struct GridPosition {
    pub x: i32,
    pub y: i32,
}

impl GridPosition {
    pub fn new(x: i32, y: i32) -> (r: GridPosition)
        ensures
            r.x == x,
            r.y == y,
    {
        GridPosition { x, y }
    }
}

/// A point of the world plane, in world units.
#[derive(Debug, Clone, Copy, PartialEq, Eq, Structural)]
pub struct WorldPos {
    pub x: i32,
    pub y: i32,
}

/// Tile size and grid extent of a level.
#[derive(Debug, Clone, Copy)]
pub struct GridSettings {
    pub tile_size: i32,
    pub width: i32,
    pub height: i32,
    pub show_grid: bool,
}

pub open spec fn valid_dims(tile_size: int, width: int, height: int) -> bool {
    &&& 0 < tile_size <= MAX_TILE_SIZE
    &&& tile_size % 2 == 0
    &&& 0 < width <= MAX_GRID_SIDE
    &&& 0 < height <= MAX_GRID_SIDE
}

pub open spec fn in_grid(p: GridPosition, width: int, height: int) -> bool {
    0 <= p.x < width && 0 <= p.y < height
}

/// World coordinate of the centre of tile `i` along an axis of `n` tiles.
pub open spec fn centre_of(i: int, tile_size: int, n: int) -> int {
    i * tile_size - n * (tile_size / 2) + tile_size / 2
}

/// Offset of world coordinate `w` from the grid's low edge along an axis of `n` tiles.
pub open spec fn from_edge(w: int, tile_size: int, n: int) -> int {
    w + n * (tile_size / 2)
}

/// The tile index that holds offset `off` from the grid's low edge, if any.
pub open spec fn tile_index(off: int, tile_size: int, n: int) -> Option<int> {
    if 0 <= off < n * tile_size {
        Some(off / tile_size)
    } else {
        None
    }
}

/// Squared Euclidean distance between two world points.
pub open spec fn dist2(a: WorldPos, b: WorldPos) -> int {
    (a.x - b.x) * (a.x - b.x) + (a.y - b.y) * (a.y - b.y)
}

impl GridSettings {
    pub open spec fn wf(&self) -> bool {
        valid_dims(self.tile_size as int, self.width as int, self.height as int)
    }

    pub open spec fn contains(&self, p: GridPosition) -> bool {
        in_grid(p, self.width as int, self.height as int)
    }

    pub fn default() -> (r: GridSettings)
        ensures
            r.wf(),
            r.tile_size == TILE_SIZE,
            r.width == GRID_WIDTH,
            r.height == GRID_HEIGHT,
            r.show_grid,
    {
        GridSettings { tile_size: TILE_SIZE, width: GRID_WIDTH, height: GRID_HEIGHT, show_grid: true }
    }

    pub fn contains_pos(&self, p: GridPosition) -> (r: bool)
        ensures
            r == self.contains(p),
    {
        0 <= p.x && p.x < self.width && 0 <= p.y && p.y < self.height
    }
}

fn axis_to_world(i: i32, tile_size: i32, n: i32) -> (r: i32)
    requires
        0 < tile_size <= MAX_TILE_SIZE,
        tile_size % 2 == 0,
        0 < n <= MAX_GRID_SIDE,
        0 <= i < n,
    ensures
        r == centre_of(i as int, tile_size as int, n as int),
{
    let half: i64 = (tile_size / 2) as i64;
    let a: i64 = 2 * (i as i64) + 1 - (n as i64);
    assert(-MAX_GRID_SIDE <= a <= MAX_GRID_SIDE);
    assert(-MAX_GRID_SIDE * 512 <= a * half <= MAX_GRID_SIDE * 512) by (nonlinear_arith)
        requires
            -MAX_GRID_SIDE <= a <= MAX_GRID_SIDE,
            0 < half <= 512,
    ;
    assert(a * half == centre_of(i as int, tile_size as int, n as int)) by (nonlinear_arith)
        requires
            a == 2 * i + 1 - n,
            tile_size == 2 * half,
            half == tile_size / 2,
    ;
    (a * half) as i32
}

/// World position of the centre of a tile.
pub fn grid_to_world(grid_pos: GridPosition, tile_size: i32, grid_width: i32, grid_height: i32) -> (r: WorldPos)
    requires
        valid_dims(tile_size as int, grid_width as int, grid_height as int),
        in_grid(grid_pos, grid_width as int, grid_height as int),
    ensures
        r.x == centre_of(grid_pos.x as int, tile_size as int, grid_width as int),
        r.y == centre_of(grid_pos.y as int, tile_size as int, grid_height as int),
{
    WorldPos {
        x: axis_to_world(grid_pos.x, tile_size, grid_width),
        y: axis_to_world(grid_pos.y, tile_size, grid_height),
    }
}

fn axis_to_grid(w: i32, tile_size: i32, n: i32) -> (r: Option<i32>)
    requires
        0 < tile_size <= MAX_TILE_SIZE,
        tile_size % 2 == 0,
        0 < n <= MAX_GRID_SIDE,
    ensures
        match tile_index(from_edge(w as int, tile_size as int, n as int), tile_size as int, n as int) {
            Some(i) => r == Some(i as i32),
            None => r.is_none(),
        },
{
    let half: i64 = (tile_size / 2) as i64;
    assert(0 <= (n as i64) * half <= MAX_GRID_SIDE * 512) by (nonlinear_arith)
        requires
            0 < n <= MAX_GRID_SIDE,
            0 < half <= 512,
    ;
    assert(0 <= (n as i64) * (tile_size as i64) <= MAX_GRID_SIDE * MAX_TILE_SIZE) by (nonlinear_arith)
        requires
            0 < n <= MAX_GRID_SIDE,
            0 < tile_size <= MAX_TILE_SIZE,
    ;
    let off: i64 = (w as i64) + (n as i64) * half;
    let span: i64 = (n as i64) * (tile_size as i64);
    if off < 0 || off >= span {
        None
    } else {
        let q: i64 = off / (tile_size as i64);
        assert(0 <= q < n) by (nonlinear_arith)
            requires
                0 <= off < span,
                span == n * tile_size,
                q == off / (tile_size as i64),
                tile_size > 0,
        ;
        Some(q as i32)
    }
}

/// The tile that holds a world position, or `None` outside the grid.
pub fn world_to_grid(world_pos: WorldPos, tile_size: i32, grid_width: i32, grid_height: i32) -> (r: Option<GridPosition>)
    requires
        valid_dims(tile_size as int, grid_width as int, grid_height as int),
    ensures
        ({
            let ix = tile_index(from_edge(world_pos.x as int, tile_size as int, grid_width as int), tile_size as int, grid_width as int);
            let iy = tile_index(from_edge(world_pos.y as int, tile_size as int, grid_height as int), tile_size as int, grid_height as int);
            match (ix, iy) {
                (Some(gx), Some(gy)) => r == Some(GridPosition { x: gx as i32, y: gy as i32 }),
                _ => r.is_none(),
            }
        }),
        r matches Some(p) ==> in_grid(p, grid_width as int, grid_height as int),
{
    let gx = axis_to_grid(world_pos.x, tile_size, grid_width);
    let gy = axis_to_grid(world_pos.y, tile_size, grid_height);
    proof {
        let ix = tile_index(from_edge(world_pos.x as int, tile_size as int, grid_width as int), tile_size as int, grid_width as int);
        if let Some(i) = ix {
            let off = from_edge(world_pos.x as int, tile_size as int, grid_width as int);
            assert(0 <= off / (tile_size as int) < grid_width) by (nonlinear_arith)
                requires 0 <= off < grid_width * tile_size, tile_size > 0;
        }
        let iy = tile_index(from_edge(world_pos.y as int, tile_size as int, grid_height as int), tile_size as int, grid_height as int);
        if let Some(i) = iy {
            let off = from_edge(world_pos.y as int, tile_size as int, grid_height as int);
            assert(0 <= off / (tile_size as int) < grid_height) by (nonlinear_arith)
                requires 0 <= off < grid_height * tile_size, tile_size > 0;
        }
    }
    match (gx, gy) {
        (Some(x), Some(y)) => Some(GridPosition { x, y }),
        _ => None,
    }
}

/// Squared Euclidean distance between two world points, exactly.
pub fn distance_squared(a: WorldPos, b: WorldPos) -> (r: u128)
    ensures
        r as int == dist2(a, b),
{
    let dx: i64 = (a.x as i64) - (b.x as i64);
    let dy: i64 = (a.y as i64) - (b.y as i64);
    let ax: u128 = if dx < 0 { (-dx) as u128 } else { dx as u128 };
    let ay: u128 = if dy < 0 { (-dy) as u128 } else { dy as u128 };
    assert(ax * ax <= 0x1_0000_0000u128 * 0x1_0000_0000u128) by (nonlinear_arith)
        requires ax <= 0x1_0000_0000u128;
    assert(ay * ay <= 0x1_0000_0000u128 * 0x1_0000_0000u128) by (nonlinear_arith)
        requires ay <= 0x1_0000_0000u128;
    assert(ax * ax == dx * dx) by (nonlinear_arith)
        requires ax == dx || ax == -dx;
    assert(ay * ay == dy * dy) by (nonlinear_arith)
        requires ay == dy || ay == -dy;
    ax * ax + ay * ay
}

} // verus!
