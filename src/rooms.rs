//! Room detection: flood fill over the open tiles of the grid.
use vstd::prelude::*;
use crate::grid::{GridPosition, GridSettings};
use crate::occupancy::BuildingMap;

verus! {

/// Smallest region that counts as a room.
pub const MIN_ROOM_TILES: usize = 4;

/// An enclosed region of open tiles.
pub struct Room {
    pub tiles: Vec<GridPosition>,
}

/// A tile of the grid that is neither occupied nor a door.
pub open spec fn open_tile(m: BuildingMap, p: GridPosition) -> bool {
    m.holds(p) && !m.occupied_at(p) && !m.door_at(p)
}

pub open spec fn on_border(m: BuildingMap, p: GridPosition) -> bool {
    p.x == 0 || p.y == 0 || p.x == m.width - 1 || p.y == m.height - 1
}

pub open spec fn adjacent(p: GridPosition, q: GridPosition) -> bool {
    (p.x == q.x && (p.y - q.y == 1 || q.y - p.y == 1)) || (p.y == q.y && (p.x - q.x == 1 || q.x - p.x == 1))
}

/// Every open neighbour of a tile of `tiles` is in `tiles`.
pub open spec fn closed(m: BuildingMap, tiles: Seq<GridPosition>) -> bool {
    forall|t: GridPosition, n: GridPosition|
        #![trigger tiles.contains(t), open_tile(m, n)]
        tiles.contains(t) && adjacent(t, n) && open_tile(m, n) ==> tiles.contains(n)
}

/// Each tile after the first is adjacent to an earlier one, so all of them
/// are joined to the first through tiles of `tiles`.
pub open spec fn connected(tiles: Seq<GridPosition>) -> bool {
    &&& tiles.len() > 0
    &&& forall|i: int| 0 < i < tiles.len() ==> exists|j: int| 0 <= j < i && adjacent(tiles[j], #[trigger] tiles[i])
}

/// `tiles` is a room of `m`: at least four distinct open tiles off the
/// border, joined through each other, with every open neighbour among them.
pub open spec fn is_room(m: BuildingMap, tiles: Seq<GridPosition>) -> bool {
    &&& tiles.len() >= MIN_ROOM_TILES
    &&& tiles.no_duplicates()
    &&& forall|i: int| 0 <= i < tiles.len() ==> open_tile(m, #[trigger] tiles[i]) && !on_border(m, tiles[i])
    &&& closed(m, tiles)
    &&& connected(tiles)
}

/// A region that is not a room: open tiles joined through each other with
/// every open neighbour among them, touching the border or under four tiles.
pub open spec fn not_a_room(m: BuildingMap, tiles: Seq<GridPosition>) -> bool {
    &&& forall|i: int| 0 <= i < tiles.len() ==> open_tile(m, #[trigger] tiles[i])
    &&& closed(m, tiles)
    &&& connected(tiles)
    &&& (tiles.len() < MIN_ROOM_TILES || exists|i: int| 0 <= i < tiles.len() && on_border(m, #[trigger] tiles[i]))
}

/// No tile of `tiles` lies on the border of the grid.
pub open spec fn off_border(m: BuildingMap, tiles: Seq<GridPosition>) -> bool {
    forall|i: int| 0 <= i < tiles.len() ==> !on_border(m, #[trigger] tiles[i])
}

/// `p` lies in one of `rooms`, or in a region that is not a room.
pub open spec fn accounted(m: BuildingMap, rooms: Seq<Room>, p: GridPosition) -> bool {
    (exists|k: int| 0 <= k < rooms.len() && (#[trigger] rooms[k]).tiles@.contains(p))
    || (exists|s: Seq<GridPosition>| #[trigger] not_a_room(m, s) && s.contains(p))
}

pub open spec fn disjoint(a: Seq<GridPosition>, b: Seq<GridPosition>) -> bool {
    forall|t: GridPosition| a.contains(t) ==> !#[trigger] b.contains(t)
}

pub open spec fn row_unvisited(r: Seq<bool>) -> nat
    decreases r.len(),
{
    if r.len() == 0 { 0 } else { row_unvisited(r.drop_last()) + if r.last() { 0nat } else { 1nat } }
}

pub open spec fn grid_unvisited(g: Seq<Vec<bool>>) -> nat
    decreases g.len(),
{
    if g.len() == 0 { 0 } else { grid_unvisited(g.drop_last()) + row_unvisited(g.last()@) }
}

proof fn lemma_row_mark(r: Seq<bool>, i: int)
    requires
        0 <= i < r.len(),
        !r[i],
    ensures
        row_unvisited(r.update(i, true)) + 1 == row_unvisited(r),
    decreases r.len(),
{
    let u = r.update(i, true);
    if i == r.len() - 1 {
        assert(u.drop_last() =~= r.drop_last());
    } else {
        assert(u.drop_last() =~= r.drop_last().update(i, true));
        lemma_row_mark(r.drop_last(), i);
    }
}

proof fn lemma_grid_mark(g: Seq<Vec<bool>>, y: int, row: Vec<bool>, x: int)
    requires
        0 <= y < g.len(),
        0 <= x < g[y]@.len(),
        !g[y]@[x],
        row@ == g[y]@.update(x, true),
    ensures
        grid_unvisited(g.update(y, row)) + 1 == grid_unvisited(g),
    decreases g.len(),
{
    let u = g.update(y, row);
    if y == g.len() - 1 {
        assert(u.drop_last() =~= g.drop_last());
        lemma_row_mark(g[y]@, x);
    } else {
        assert(u.drop_last() =~= g.drop_last().update(y, row));
        lemma_grid_mark(g.drop_last(), y, row, x);
    }
}

impl Room {
    pub fn new(tiles: Vec<GridPosition>) -> (r: Room)
        ensures
            r.tiles@ == tiles@,
    {
        Room { tiles }
    }

    pub fn contains_tile(&self, pos: GridPosition) -> (r: bool)
        ensures
            r == self.tiles@.contains(pos),
    {
        let mut i: usize = 0;
        while i < self.tiles.len()
            invariant
                0 <= i <= self.tiles@.len(),
                forall|j: int| 0 <= j < i ==> self.tiles@[j] != pos,
            decreases self.tiles@.len() - i,
        {
            if self.tiles[i] == pos {
                return true;
            }
            i = i + 1;
        }
        false
    }

    pub fn tile_count(&self) -> (r: usize)
        ensures
            r == self.tiles@.len(),
    {
        self.tiles.len()
    }
}

/// The visited flags of a scan, row `y`, column `x`.
struct Scan {
    vis: Vec<Vec<bool>>,
}

impl Scan {
    spec fn shaped(&self, m: BuildingMap) -> bool {
        &&& self.vis@.len() == m.height
        &&& forall|y: int| 0 <= y < m.height ==> (#[trigger] self.vis@[y])@.len() == m.width
    }

    spec fn at(&self, p: GridPosition) -> bool {
        self.vis@[p.y as int]@[p.x as int]
    }

    /// Every visited tile is open, and every open neighbour of a visited
    /// tile is visited or waiting in `stack`.
    spec fn closed_but(&self, m: BuildingMap, stack: Seq<GridPosition>) -> bool {
        &&& forall|p: GridPosition| m.holds(p) && #[trigger] self.at(p) ==> open_tile(m, p)
        &&& forall|p: GridPosition, n: GridPosition| m.holds(p) && #[trigger] self.at(p) && adjacent(p, n)
            && #[trigger] open_tile(m, n) ==> self.at(n) || stack.contains(n)
    }

    fn visited(&self, p: GridPosition, Ghost(m): Ghost<BuildingMap>) -> (r: bool)
        requires
            self.shaped(m),
            m.shape_ok(),
            m.holds(p),
        ensures
            r == self.at(p),
    {
        self.vis[p.y as usize][p.x as usize]
    }

    fn mark(&mut self, p: GridPosition, Ghost(m): Ghost<BuildingMap>)
        requires
            old(self).shaped(m),
            m.shape_ok(),
            m.holds(p),
            !old(self).at(p),
        ensures
            final(self).shaped(m),
            final(self).at(p),
            forall|q: GridPosition| m.holds(q) && q != p ==> #[trigger] final(self).at(q) == old(self).at(q),
            grid_unvisited(final(self).vis@) + 1 == grid_unvisited(old(self).vis@),
    {
        let ghost g = self.vis@;
        self.vis[p.y as usize][p.x as usize] = true;
        proof {
            let row = self.vis@[p.y as int];
            assert(row@ =~= g[p.y as int]@.update(p.x as int, true));
            assert(self.vis@ =~= g.update(p.y as int, row));
            lemma_grid_mark(g, p.y as int, row, p.x as int);
        }
    }
}

fn is_open(m: &BuildingMap, p: GridPosition) -> (r: bool)
    requires
        m.shape_ok(),
    ensures
        r == open_tile(*m, p),
{
    m.contains_pos(p) && !m.is_occupied(p) && !m.has_door(p)
}

/// Pushes `n` onto `stack` when it is an open grid tile not yet visited.
fn consider(n: GridPosition, m: &BuildingMap, scan: &Scan, stack: &mut Vec<GridPosition>)
    requires
        m.shape_ok(),
        scan.shaped(*m),
    ensures
        if m.holds(n) && !scan.at(n) && open_tile(*m, n) {
            final(stack)@ == old(stack)@.push(n)
        } else {
            final(stack)@ == old(stack)@
        },
{
    if m.contains_pos(n) && !scan.visited(n, Ghost(*m)) && is_open(m, n) {
        stack.push(n);
    }
}

/// Flood fill from `start_pos` over open tiles not yet visited, marking
/// each tile it reaches. Returns the tiles reached, and whether none of
/// them lies on the border of the grid.
#[verifier::rlimit(80)]
#[verifier::spinoff_prover]
fn flood_fill_room(start_pos: GridPosition, building_map: &BuildingMap, visited: &mut Scan) -> (r: (Vec<GridPosition>, bool))
    requires
        building_map.wf(),
        old(visited).shaped(*building_map),
        old(visited).closed_but(*building_map, seq![]),
        open_tile(*building_map, start_pos),
        !old(visited).at(start_pos),
    ensures
        final(visited).shaped(*building_map),
        final(visited).closed_but(*building_map, seq![]),
        forall|p: GridPosition| building_map.holds(p) && #[trigger] old(visited).at(p) ==> final(visited).at(p),
        r.0@.no_duplicates(),
        forall|i: int| 0 <= i < r.0@.len() ==> building_map.holds(#[trigger] r.0@[i]) && final(visited).at(r.0@[i])
            && !old(visited).at(r.0@[i]),
        forall|p: GridPosition| building_map.holds(p) && #[trigger] final(visited).at(p) && !old(visited).at(p)
            ==> r.0@.contains(p),
        r.1 == off_border(*building_map, r.0@),
        connected(r.0@),
        r.0@[0] == start_pos,
{
    let ghost m = *building_map;
    let ghost v0 = *old(visited);
    let mut stack: Vec<GridPosition> = Vec::new();
    stack.push(start_pos);
    let mut tiles: Vec<GridPosition> = Vec::new();
    let mut enclosed: bool = true;
    proof {
        assert forall|p: GridPosition, n: GridPosition| m.holds(p) && #[trigger] visited.at(p) && adjacent(p, n)
            && #[trigger] open_tile(m, n) implies visited.at(n) || stack@.contains(n) by {
            assert(v0.closed_but(m, seq![]));
            assert(seq![].contains(n) == false);
        }
    }
    while stack.len() > 0
        invariant
            m == *building_map,
            m.wf(),
            visited.shaped(m),
            visited.closed_but(m, stack@),
            forall|i: int| 0 <= i < stack@.len() ==> open_tile(m, #[trigger] stack@[i]),
            forall|p: GridPosition| m.holds(p) && #[trigger] v0.at(p) ==> visited.at(p),
            v0.closed_but(m, seq![]),
            v0 == *old(visited),
            tiles@.no_duplicates(),
            forall|i: int| 0 <= i < tiles@.len() ==> m.holds(#[trigger] tiles@[i]) && visited.at(tiles@[i]) && !v0.at(tiles@[i]),
            forall|p: GridPosition| m.holds(p) && #[trigger] visited.at(p) && !v0.at(p) ==> tiles@.contains(p),
            enclosed == off_border(m, tiles@),
            tiles@.len() == 0 ==> stack@ == seq![start_pos],
            tiles@.len() > 0 ==> connected(tiles@) && tiles@[0] == start_pos,
            forall|k: int| 0 <= k < stack@.len() && tiles@.len() > 0 ==>
                exists|j: int| 0 <= j < tiles@.len() && adjacent(tiles@[j], #[trigger] stack@[k]),
            !v0.at(start_pos),
            m.holds(start_pos),
        decreases grid_unvisited(visited.vis@) * 5 + stack@.len(),
    {
        let ghost s0 = stack@;
        let p = stack.pop().unwrap();
        proof {
            assert(s0 =~= stack@.push(p));
            assert(open_tile(m, s0[s0.len() - 1]));
        }
        if visited.visited(p, Ghost(m)) {
            proof {
                assert forall|q: GridPosition, n: GridPosition| m.holds(q) && #[trigger] visited.at(q) && adjacent(q, n)
                    && #[trigger] open_tile(m, n) implies visited.at(n) || stack@.contains(n) by {
                    if s0.contains(n) && n != p {
                        let k = choose|k: int| 0 <= k < s0.len() && s0[k] == n;
                        assert(stack@[k] == n);
                    }
                }
                assert forall|i: int| 0 <= i < stack@.len() implies open_tile(m, #[trigger] stack@[i]) by {
                    assert(stack@[i] == s0[i]);
                }
                if tiles@.len() > 0 {
                    assert forall|k: int| 0 <= k < stack@.len() implies
                        exists|j: int| 0 <= j < tiles@.len() && adjacent(tiles@[j], #[trigger] stack@[k]) by {
                        assert(stack@[k] == s0[k]);
                    }
                } else {
                    assert(s0 == seq![start_pos]);
                    assert(p == start_pos);
                    assert(!v0.at(start_pos));
                    assert(tiles@.len() == 0 && visited.at(start_pos));
                    assert(false);
                }
            }
        } else {
            let ghost vb = *visited;
            let ghost tb = tiles@;
            proof {
                if tb.len() > 0 {
                    let k = s0.len() - 1;
                    assert(s0[k] == p);
                    let j = choose|j: int| 0 <= j < tb.len() && adjacent(tb[j], #[trigger] s0[k]);
                    assert(adjacent(tb[j], p));
                } else {
                    assert(s0 == seq![start_pos]);
                    assert(p == start_pos);
                }
            }
            visited.mark(p, Ghost(m));
            proof {
                assert forall|i: int| 0 <= i < tb.len() implies tb[i] != p by {
                    assert(vb.at(tb[i]));
                }
            }
            tiles.push(p);
            let was_enclosed = enclosed;
            if p.x == 0 || p.y == 0 || p.x == building_map.width - 1 || p.y == building_map.height - 1 {
                enclosed = false;
            }
            proof {
                assert(tiles@ =~= tb.push(p));
                if enclosed {
                    assert forall|i: int| 0 <= i < tiles@.len() implies !on_border(m, #[trigger] tiles@[i]) by {
                        if i < tb.len() {
                            assert(tiles@[i] == tb[i]);
                        }
                    }
                } else if was_enclosed {
                    assert(on_border(m, tiles@[tb.len() as int]));
                } else {
                    let i = choose|i: int| 0 <= i < tb.len() && on_border(m, #[trigger] tb[i]);
                    assert(tiles@[i] == tb[i]);
                }
            }
            let ghost sa = stack@;
            let e = GridPosition { x: p.x + 1, y: p.y };
            let w = GridPosition { x: p.x - 1, y: p.y };
            let nn = GridPosition { x: p.x, y: p.y + 1 };
            let ss = GridPosition { x: p.x, y: p.y - 1 };
            consider(e, building_map, visited, &mut stack);
            let ghost s1 = stack@;
            consider(w, building_map, visited, &mut stack);
            let ghost s2 = stack@;
            consider(nn, building_map, visited, &mut stack);
            let ghost s3 = stack@;
            consider(ss, building_map, visited, &mut stack);
            proof {
                let cond = |q: GridPosition| m.holds(q) && !visited.at(q) && open_tile(m, q);
                assert(cond(e) ==> s1.contains(e)) by { if cond(e) { assert(s1[s1.len() - 1] == e); } }
                assert(cond(w) ==> s2.contains(w)) by { if cond(w) { assert(s2[s2.len() - 1] == w); } }
                assert(cond(nn) ==> s3.contains(nn)) by { if cond(nn) { assert(s3[s3.len() - 1] == nn); } }
                assert(cond(ss) ==> stack@.contains(ss)) by { if cond(ss) { assert(stack@[stack@.len() - 1] == ss); } }
                assert(forall|q: GridPosition| s1.contains(q) ==> s2.contains(q)) by {
                    assert forall|q: GridPosition| s1.contains(q) implies s2.contains(q) by {
                        let k = choose|k: int| 0 <= k < s1.len() && s1[k] == q;
                        assert(s2[k] == q);
                    }
                }
                assert(forall|q: GridPosition| s2.contains(q) ==> s3.contains(q)) by {
                    assert forall|q: GridPosition| s2.contains(q) implies s3.contains(q) by {
                        let k = choose|k: int| 0 <= k < s2.len() && s2[k] == q;
                        assert(s3[k] == q);
                    }
                }
                assert(forall|q: GridPosition| s3.contains(q) ==> stack@.contains(q)) by {
                    assert forall|q: GridPosition| s3.contains(q) implies stack@.contains(q) by {
                        let k = choose|k: int| 0 <= k < s3.len() && s3[k] == q;
                        assert(stack@[k] == q);
                    }
                }
                assert(stack@.len() <= sa.len() + 4);
                assert forall|k: int| 0 <= k < sa.len() implies stack@[k] == sa[k] by {}
                assert forall|i: int| 0 <= i < stack@.len() implies open_tile(m, #[trigger] stack@[i]) by {
                    if i < sa.len() {
                        assert(sa[i] == s0[i]);
                    }
                }
                assert forall|q: GridPosition, n: GridPosition| m.holds(q) && #[trigger] visited.at(q) && adjacent(q, n)
                    && #[trigger] open_tile(m, n) implies visited.at(n) || stack@.contains(n) by {
                    if q == p {
                        if !vb.at(n) && n != p {
                            assert(visited.at(n) == vb.at(n));
                            assert(n == e || n == w || n == nn || n == ss);
                            assert(cond(n));
                            assert(stack@.contains(n));
                        }
                    } else {
                        assert(vb.at(q));
                        if !vb.at(n) && n != p {
                            assert(s0.contains(n));
                            let k = choose|k: int| 0 <= k < s0.len() && s0[k] == n;
                            assert(k < sa.len());
                            assert(stack@[k] == n);
                        }
                    }
                }
                assert(tiles@[tb.len() as int] == p);
                assert(connected(tiles@)) by {
                    assert forall|i: int| 0 < i < tiles@.len() implies exists|j: int| 0 <= j < i && adjacent(tiles@[j], #[trigger] tiles@[i]) by {
                        if i < tb.len() {
                            assert(tiles@[i] == tb[i]);
                            let j = choose|j: int| 0 <= j < i && adjacent(tb[j], #[trigger] tb[i]);
                            assert(tiles@[j] == tb[j]);
                        } else if tb.len() > 0 {
                            let j = choose|j: int| 0 <= j < tb.len() && adjacent(tb[j], p);
                            assert(tiles@[j] == tb[j]);
                        }
                    }
                }
                assert forall|k: int| 0 <= k < stack@.len() implies
                    exists|j: int| 0 <= j < tiles@.len() && adjacent(tiles@[j], #[trigger] stack@[k]) by {
                    if k < sa.len() {
                        assert(stack@[k] == sa[k]);
                        assert(sa[k] == s0[k]);
                        if tb.len() > 0 {
                            let j = choose|j: int| 0 <= j < tb.len() && adjacent(tb[j], #[trigger] s0[k]);
                            assert(tiles@[j] == tb[j]);
                        } else {
                            assert(s0 == seq![start_pos]);
                            assert(false);
                        }
                    } else {
                        let q = stack@[k];
                        assert(q == e || q == w || q == nn || q == ss) by {
                            if k < s1.len() {
                                assert(s1[k] == q);
                            } else if k < s2.len() {
                                assert(s2[k] == q);
                                assert(s1.len() <= k);
                            } else if k < s3.len() {
                                assert(s3[k] == q);
                            }
                        }
                        assert(adjacent(tiles@[tb.len() as int], q));
                    }
                }
                assert forall|q: GridPosition| m.holds(q) && #[trigger] visited.at(q) && !v0.at(q) implies tiles@.contains(q) by {
                    if q != p {
                        assert(vb.at(q));
                        assert(tb.contains(q));
                        let k = choose|k: int| 0 <= k < tb.len() && tb[k] == q;
                        assert(tiles@[k] == q);
                    } else {
                        assert(tiles@[tiles@.len() - 1] == p);
                    }
                }
            }
        }
    }
    proof {
        if enclosed {
            assert forall|i: int| 0 <= i < tiles@.len() implies !on_border(*building_map, #[trigger] tiles@[i]) by {
                assert(!on_border(m, tiles@[i]));
            }
        } else {
            let i = choose|i: int| 0 <= i < tiles@.len() && on_border(m, #[trigger] tiles@[i]);
            assert(on_border(*building_map, tiles@[i]));
        }
    }
    (tiles, enclosed)
}

/// Every room of the level: each maximal region of open tiles, found in
/// raster order and filled through its open neighbours, that stays off the
/// border of the grid and has at least four tiles. Rooms are disjoint, and
/// every open tile outside them lies in a region that is not a room.
#[verifier::rlimit(80)]
#[verifier::spinoff_prover]
pub fn find_enclosed_rooms(building_map: &BuildingMap, grid_settings: &GridSettings) -> (r: Vec<Room>)
    requires
        building_map.wf(),
        grid_settings.width == building_map.width,
        grid_settings.height == building_map.height,
    ensures
        forall|k: int| 0 <= k < r@.len() ==> is_room(*building_map, (#[trigger] r@[k]).tiles@),
        forall|a: int, b: int| 0 <= a < r@.len() && 0 <= b < r@.len() && a != b ==>
            disjoint((#[trigger] r@[a]).tiles@, (#[trigger] r@[b]).tiles@),
        forall|p: GridPosition| #[trigger] open_tile(*building_map, p) ==> accounted(*building_map, r@, p),
{
    let ghost m = *building_map;
    let mut vis: Vec<Vec<bool>> = Vec::new();
    let mut y: i32 = 0;
    while y < building_map.height
        invariant
            m == *building_map,
            m.wf(),
            0 <= y <= m.height,
            vis@.len() == y,
            forall|j: int| 0 <= j < y ==> (#[trigger] vis@[j])@.len() == m.width,
            forall|j: int, i: int| 0 <= j < y && 0 <= i < m.width ==> !#[trigger] vis@[j]@[i],
        decreases m.height - y,
    {
        let mut row: Vec<bool> = Vec::new();
        let mut x: i32 = 0;
        while x < building_map.width
            invariant
                m == *building_map,
                0 <= x <= m.width,
                row@.len() == x,
                forall|i: int| 0 <= i < x ==> !row@[i],
            decreases m.width - x,
        {
            row.push(false);
            x = x + 1;
        }
        vis.push(row);
        y = y + 1;
    }
    let mut scan = Scan { vis };
    let mut rooms: Vec<Room> = Vec::new();
    let mut y: i32 = 0;
    while y < building_map.height
        invariant
            m == *building_map,
            m.wf(),
            0 <= y <= m.height,
            scan.shaped(m),
            scan.closed_but(m, seq![]),
            forall|k: int| 0 <= k < rooms@.len() ==> is_room(m, (#[trigger] rooms@[k]).tiles@),
            forall|k: int, i: int| 0 <= k < rooms@.len() && 0 <= i < rooms@[k].tiles@.len() ==>
                m.holds(#[trigger] rooms@[k].tiles@[i]) && scan.at(rooms@[k].tiles@[i]),
            forall|a: int, b: int| 0 <= a < rooms@.len() && 0 <= b < rooms@.len() && a != b ==>
                disjoint((#[trigger] rooms@[a]).tiles@, (#[trigger] rooms@[b]).tiles@),
            forall|p: GridPosition| m.holds(p) && #[trigger] scan.at(p) ==> accounted(m, rooms@, p),
            forall|p: GridPosition| #[trigger] open_tile(m, p) && p.y < y ==> scan.at(p),
        decreases m.height - y,
    {
        let mut x: i32 = 0;
        while x < building_map.width
            invariant
                m == *building_map,
                m.wf(),
                0 <= y < m.height,
                0 <= x <= m.width,
                scan.shaped(m),
                scan.closed_but(m, seq![]),
                forall|k: int| 0 <= k < rooms@.len() ==> is_room(m, (#[trigger] rooms@[k]).tiles@),
                forall|k: int, i: int| 0 <= k < rooms@.len() && 0 <= i < rooms@[k].tiles@.len() ==>
                    m.holds(#[trigger] rooms@[k].tiles@[i]) && scan.at(rooms@[k].tiles@[i]),
                forall|a: int, b: int| 0 <= a < rooms@.len() && 0 <= b < rooms@.len() && a != b ==>
                    disjoint((#[trigger] rooms@[a]).tiles@, (#[trigger] rooms@[b]).tiles@),
                forall|p: GridPosition| m.holds(p) && #[trigger] scan.at(p) ==> accounted(m, rooms@, p),
                forall|p: GridPosition| #[trigger] open_tile(m, p) && (p.y < y || (p.y == y && p.x < x)) ==> scan.at(p),
            decreases m.width - x,
        {
            let pos = GridPosition { x, y };
            if !scan.visited(pos, Ghost(m)) && is_open(building_map, pos) {
                let ghost v0 = scan;
                let ghost r0 = rooms@;
                let (tiles, enclosed) = flood_fill_room(pos, building_map, &mut scan);
                proof {
                    let ts = tiles@;
                    assert forall|i: int| 0 <= i < ts.len() implies open_tile(m, #[trigger] ts[i]) by {
                        assert(scan.at(ts[i]));
                    }
                    assert forall|t: GridPosition, n: GridPosition|
                        #![trigger ts.contains(t), open_tile(m, n)]
                        ts.contains(t) && adjacent(t, n) && open_tile(m, n) implies ts.contains(n) by {
                        let i = choose|i: int| 0 <= i < ts.len() && ts[i] == t;
                        assert(m.holds(ts[i]) && scan.at(ts[i]) && !v0.at(ts[i]));
                        assert(scan.at(n));
                        if v0.at(n) {
                            assert(adjacent(n, t));
                            assert(open_tile(m, t));
                            assert(v0.at(t));
                        }
                    }
                    assert(closed(m, ts));
                    assert(scan.at(ts[0]));
                    assert forall|p: GridPosition| #[trigger] open_tile(m, p) && (p.y < y || (p.y == y && p.x < x + 1)) implies scan.at(p) by {
                        if p.y == y && p.x == x {
                            assert(p == pos);
                        } else {
                            assert(v0.at(p));
                        }
                    }
                }
                if enclosed && tiles.len() >= MIN_ROOM_TILES {
                    proof {
                        let ts = tiles@;
                        assert forall|i: int| 0 <= i < ts.len() implies open_tile(m, #[trigger] ts[i]) && !on_border(m, ts[i]) by {
                            assert(scan.at(ts[i]));
                        }
                        assert forall|k: int| 0 <= k < rooms@.len() implies disjoint((#[trigger] rooms@[k]).tiles@, ts) by {
                            assert forall|t: GridPosition| rooms@[k].tiles@.contains(t) implies !#[trigger] ts.contains(t) by {
                                let i = choose|i: int| 0 <= i < rooms@[k].tiles@.len() && rooms@[k].tiles@[i] == t;
                                assert(v0.at(rooms@[k].tiles@[i]));
                                if ts.contains(t) {
                                    let j = choose|j: int| 0 <= j < ts.len() && ts[j] == t;
                                    assert(!v0.at(ts[j]));
                                }
                            }
                        }
                    }
                    let ghost before = rooms@;
                    rooms.push(Room { tiles });
                    proof {
                        assert forall|a: int, b: int| 0 <= a < rooms@.len() && 0 <= b < rooms@.len() && a != b implies
                            disjoint((#[trigger] rooms@[a]).tiles@, (#[trigger] rooms@[b]).tiles@) by {
                            if a == before.len() {
                                assert(disjoint(before[b].tiles@, rooms@[a].tiles@));
                                assert forall|t: GridPosition| rooms@[a].tiles@.contains(t) implies !#[trigger] rooms@[b].tiles@.contains(t) by {
                                    if rooms@[b].tiles@.contains(t) {
                                        assert(!rooms@[a].tiles@.contains(t));
                                    }
                                }
                            } else if b == before.len() {
                                assert(disjoint(before[a].tiles@, rooms@[b].tiles@));
                            } else {
                                assert(disjoint(before[a].tiles@, before[b].tiles@));
                            }
                        }
                        assert forall|k: int, i: int| 0 <= k < rooms@.len() && 0 <= i < rooms@[k].tiles@.len() implies
                            m.holds(#[trigger] rooms@[k].tiles@[i]) && scan.at(rooms@[k].tiles@[i]) by {
                            if k < before.len() {
                                assert(v0.at(before[k].tiles@[i]));
                            }
                        }
                        assert forall|p: GridPosition| m.holds(p) && #[trigger] scan.at(p) implies accounted(m, rooms@, p) by {
                            if v0.at(p) {
                                assert(accounted(m, before, p));
                                if exists|k: int| 0 <= k < before.len() && (#[trigger] before[k]).tiles@.contains(p) {
                                    let k = choose|k: int| 0 <= k < before.len() && (#[trigger] before[k]).tiles@.contains(p);
                                    assert(rooms@[k] == before[k]);
                                }
                            } else {
                                assert(tiles@.contains(p));
                                assert(rooms@[before.len() as int].tiles@.contains(p));
                            }
                        }
                    }
                } else {
                    proof {
                        let ts = tiles@;
                        assert forall|k: int, i: int| 0 <= k < rooms@.len() && 0 <= i < rooms@[k].tiles@.len() implies
                            m.holds(#[trigger] rooms@[k].tiles@[i]) && scan.at(rooms@[k].tiles@[i]) by {
                            assert(v0.at(rooms@[k].tiles@[i]));
                        }
                        if enclosed {
                            assert(ts.len() < MIN_ROOM_TILES);
                        } else {
                            let i = choose|i: int| 0 <= i < ts.len() && on_border(m, #[trigger] ts[i]);
                        }
                        assert(not_a_room(m, ts));
                        assert forall|p: GridPosition| m.holds(p) && #[trigger] scan.at(p) implies accounted(m, rooms@, p) by {
                            if v0.at(p) {
                                assert(accounted(m, r0, p));
                            } else {
                                assert(ts.contains(p));
                            }
                        }
                    }
                }
            } else {
                proof {
                    assert forall|p: GridPosition| #[trigger] open_tile(m, p) && (p.y < y || (p.y == y && p.x < x + 1)) implies scan.at(p) by {
                        if p.y == y && p.x == x {
                            assert(p == pos);
                        }
                    }
                }
            }
            x = x + 1;
        }
        y = y + 1;
    }
    proof {
        assert forall|p: GridPosition| #[trigger] open_tile(*building_map, p) implies accounted(*building_map, rooms@, p) by {
            assert(scan.at(p));
        }
    }
    rooms
}

/// Re-derives every room after a change of wall layout; without one the
/// rooms stay as they are.
pub fn detect_rooms(building_map: &BuildingMap, grid_settings: &GridSettings, walls_changed: bool, rooms: &mut Vec<Room>)
    requires
        building_map.wf(),
        grid_settings.width == building_map.width,
        grid_settings.height == building_map.height,
    ensures
        !walls_changed ==> final(rooms)@ == old(rooms)@,
        walls_changed ==> forall|k: int| 0 <= k < final(rooms)@.len() ==> is_room(*building_map, (#[trigger] final(rooms)@[k]).tiles@),
        walls_changed ==> forall|a: int, b: int| 0 <= a < final(rooms)@.len() && 0 <= b < final(rooms)@.len() && a != b ==>
            disjoint((#[trigger] final(rooms)@[a]).tiles@, (#[trigger] final(rooms)@[b]).tiles@),
        walls_changed ==> forall|p: GridPosition| #[trigger] open_tile(*building_map, p) ==> accounted(*building_map, final(rooms)@, p),
{
    if walls_changed {
        *rooms = find_enclosed_rooms(building_map, grid_settings);
    }
}

} // verus!
