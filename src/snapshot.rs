//! Snapshots of what stands on a level, for saving and loading.
use vstd::prelude::*;
use crate::grid::GridPosition;
use crate::building::{DoorOrientation, FloorType, Door};
use crate::furniture::{FurnitureOrientation, FurnitureType};
use crate::level::{Level, Structure, StructureKind};
use crate::occupancy::{BuildingMap, TileRecord, marked_occupied};
use crate::building::{fits_footprint, in_rect, lists_rect};
use crate::furniture::oriented_dims;

verus! {

#[derive(Debug, Clone, Copy, PartialEq, Eq, Structural)]
pub struct GridPoint {
    pub x: i32,
    pub y: i32,
}

#[derive(Debug, Clone, Copy, PartialEq, Eq, Structural)]
pub struct DoorData {
    pub position: GridPoint,
    pub orientation: DoorOrientation,
}

#[derive(Debug, Clone, Copy, PartialEq, Eq, Structural)]
pub struct FloorData {
    pub position: GridPoint,
    pub floor_type: FloorType,
}

#[derive(Debug, Clone, Copy, PartialEq, Eq, Structural)]
pub struct FurnitureData {
    pub position: GridPoint,
    pub furniture_type: FurnitureType,
    pub orientation: FurnitureOrientation,
}

/// Everything built on a level, by kind.
pub struct SaveData {
    pub walls: Vec<GridPoint>,
    pub floors: Vec<FloorData>,
    pub doors: Vec<DoorData>,
    pub furniture: Vec<FurnitureData>,
}

pub open spec fn point_of(p: GridPosition) -> GridPoint {
    GridPoint { x: p.x, y: p.y }
}

pub open spec fn position_of(p: GridPoint) -> GridPosition {
    GridPosition { x: p.x, y: p.y }
}

/// `s` is what one entry of `data` puts down.
pub open spec fn from_entry(data: &SaveData, s: Structure) -> bool {
    let p = point_of(s.pos);
    match s.kind {
        StructureKind::Wall => data.walls@.contains(p),
        StructureKind::Floor(t) => data.floors@.contains(FloorData { position: p, floor_type: t }),
        StructureKind::Door(o) => data.doors@.contains(DoorData { position: p, orientation: o }),
        StructureKind::Furniture(t, o) => data.furniture@.contains(
            FurnitureData { position: p, furniture_type: t, orientation: o },
        ),
        StructureKind::Window => false,
    }
}

/// The ledger with every tile of the `w` by `h` rectangle at `p` occupied.
pub open spec fn occupied_over(m: Map<GridPosition, TileRecord>, p: GridPosition, w: int, h: int) -> Map<GridPosition, TileRecord> {
    Map::new(
        |q: GridPosition| m.contains_key(q),
        |q: GridPosition| if in_rect(p, w, h, q) { marked_occupied(m[q]) } else { m[q] },
    )
}

/// Everything but the ledger, the objects, the id counter, and (for doors)
/// blueprints and workers, is as before.
pub open spec fn load_frame(pre: Level, post: Level) -> bool {
    &&& post.settings == pre.settings
    &&& post.money == pre.money
    &&& post.markers == pre.markers
    &&& post.map.width == pre.map.width
    &&& post.map.height == pre.map.height
}

/// Loading one floor entry: a floor on a grid tile.
pub open spec fn floor_entry(pre: Level, post: Level, f: FloorData) -> bool {
    let p = position_of(f.position);
    if pre.map.holds(p) {
        &&& post.map@ == pre.map@.insert(p, crate::occupancy::floor_placed(pre.map@[p]))
        &&& post.structures@ == pre.structures@.push(Structure { id: pre.next_id, kind: StructureKind::Floor(f.floor_type), pos: p })
        &&& post.next_id == pre.next_id + 1
        &&& post.blueprints == pre.blueprints
        &&& post.workers == pre.workers
        &&& load_frame(pre, post)
    } else {
        post == pre
    }
}

/// Loading one wall entry: a wall on a grid tile that holds no door.
pub open spec fn wall_entry(pre: Level, post: Level, w: GridPoint) -> bool {
    let p = position_of(w);
    if pre.map.holds(p) && !pre.map.door_at(p) {
        &&& post.map@ == pre.map@.insert(p, crate::occupancy::wall_placed(pre.map@[p], pre.next_id))
        &&& post.structures@ == pre.structures@.push(Structure { id: pre.next_id, kind: StructureKind::Wall, pos: p })
        &&& post.next_id == pre.next_id + 1
        &&& post.blueprints == pre.blueprints
        &&& post.workers == pre.workers
        &&& load_frame(pre, post)
    } else {
        post == pre
    }
}

/// Loading one door entry: a door whose tiles are free or hold walls,
/// which it replaces.
pub open spec fn door_entry(pre: Level, post: Level, d: DoorData) -> bool {
    let p = position_of(d.position);
    let q = crate::building::door_second(p, d.orientation);
    let w1 = pre.map@[p].wall;
    let w2 = pre.map@[q].wall;
    if pre.free_for_door(p, d.orientation) {
        &&& post.map@ == pre.map@.insert(p, crate::occupancy::door_placed(pre.map@[p], pre.next_id)).insert(
            q,
            crate::occupancy::door_placed(pre.map@[q], pre.next_id),
        )
        &&& post.structures@ == pre.structures@.filter(|s: Structure| !crate::level::hit(w1, w2, s.id)).push(
            Structure { id: pre.next_id, kind: StructureKind::Door(d.orientation), pos: p },
        )
        &&& post.blueprints@ == pre.blueprints@.filter(|s: crate::level::BlueprintSite| !crate::level::hit(w1, w2, s.id))
        &&& post.workers@.len() == pre.workers@.len()
        &&& forall|i: int| 0 <= i < post.workers@.len() ==>
            #[trigger] post.workers@[i] == crate::level::released(pre.workers@[i], w1, w2)
        &&& post.next_id == pre.next_id + 1
        &&& load_frame(pre, post)
    } else {
        post == pre
    }
}

/// Loading one furniture entry: a piece whose footprint lies on the grid
/// and holds no door, occupying the footprint.
pub open spec fn furniture_entry(pre: Level, post: Level, f: FurnitureData) -> bool {
    let p = position_of(f.position);
    let (w, h) = oriented_dims(f.furniture_type, f.orientation);
    if fits_footprint(p) && pre.map.holds(p)
        && forall|q: GridPosition| in_rect(p, w, h, q) ==> #[trigger] pre.map.holds(q) && !pre.map.door_at(q) {
        &&& post.map@ == occupied_over(pre.map@, p, w, h)
        &&& post.structures@ == pre.structures@.push(
            Structure { id: pre.next_id, kind: StructureKind::Furniture(f.furniture_type, f.orientation), pos: p },
        )
        &&& post.next_id == pre.next_id + 1
        &&& post.blueprints == pre.blueprints
        &&& post.workers == pre.workers
        &&& load_frame(pre, post)
    } else {
        post == pre
    }
}

/// Loading entry `t` of `data`: floors first, then walls, doors, furniture.
pub open spec fn load_step(pre: Level, post: Level, data: &SaveData, t: int) -> bool {
    let nf = data.floors@.len() as int;
    let nw = data.walls@.len() as int;
    let nd = data.doors@.len() as int;
    if t < nf {
        floor_entry(pre, post, data.floors@[t])
    } else if t < nf + nw {
        wall_entry(pre, post, data.walls@[t - nf])
    } else if t < nf + nw + nd {
        door_entry(pre, post, data.doors@[t - nf - nw])
    } else {
        furniture_entry(pre, post, data.furniture@[t - nf - nw - nd])
    }
}

/// `c` is `old` with its ledger emptied and its objects and work in progress gone.
pub open spec fn cleared(old: Level, c: Level) -> bool {
    &&& c.settings == old.settings
    &&& c.money == old.money
    &&& c.workers == old.workers
    &&& c.next_id == old.next_id
    &&& c.structures@.len() == 0
    &&& c.blueprints@.len() == 0
    &&& c.markers@.len() == 0
    &&& c.map.width == old.map.width
    &&& c.map.height == old.map.height
    &&& forall|p: GridPosition| #[trigger] c.map.holds(p) ==> c.map@[p] == crate::occupancy::empty_tile()
}

/// `(x, y)` ordering: by `x`, then by `y`.
pub open spec fn pos_le(a: GridPoint, b: GridPoint) -> bool {
    a.x < b.x || (a.x == b.x && a.y <= b.y)
}

/// A snapshot entry placed at a tile.
pub trait Placed: Sized + Copy {
    spec fn at_spec(&self) -> GridPoint;

    fn at(&self) -> (r: GridPoint)
        ensures
            r == self.at_spec(),
    ;
}

impl Placed for GridPoint {
    open spec fn at_spec(&self) -> GridPoint {
        *self
    }

    fn at(&self) -> (r: GridPoint) {
        *self
    }
}

impl Placed for FloorData {
    open spec fn at_spec(&self) -> GridPoint {
        self.position
    }

    fn at(&self) -> (r: GridPoint) {
        self.position
    }
}

impl Placed for DoorData {
    open spec fn at_spec(&self) -> GridPoint {
        self.position
    }

    fn at(&self) -> (r: GridPoint) {
        self.position
    }
}

impl Placed for FurnitureData {
    open spec fn at_spec(&self) -> GridPoint {
        self.position
    }

    fn at(&self) -> (r: GridPoint) {
        self.position
    }
}

/// `after` is `before` reordered by `perm` (`after[k] == before[perm[k]]`),
/// with entries at equal positions kept in their order.
pub open spec fn stable_reorder<T: Placed>(before: Seq<T>, after: Seq<T>, perm: Seq<int>) -> bool {
    &&& perm.len() == after.len()
    &&& before.len() == after.len()
    &&& forall|k: int| 0 <= k < after.len() ==> 0 <= #[trigger] perm[k] < before.len() && after[k] == before[perm[k]]
    &&& forall|a: int, b: int| 0 <= a < after.len() && 0 <= b < after.len() && a != b ==> #[trigger] perm[a] != #[trigger] perm[b]
    &&& forall|a: int, b: int| 0 <= a < b < after.len() && (#[trigger] after[a]).at_spec() == (#[trigger] after[b]).at_spec()
        ==> perm[a] < perm[b]
}

pub open spec fn sorted_by_pos<T: Placed>(s: Seq<T>) -> bool {
    forall|a: int, b: int| 0 <= a < b < s.len() ==> pos_le((#[trigger] s[a]).at_spec(), (#[trigger] s[b]).at_spec())
}

fn strictly_before(a: GridPoint, b: GridPoint) -> (r: bool)
    ensures
        r == !pos_le(b, a),
{
    a.x < b.x || (a.x == b.x && a.y < b.y)
}

/// Sorts entries by position, `(x, y)`; entries at equal positions keep their order.
pub fn sort_by_position<T: Placed>(v: &mut Vec<T>)
    ensures
        sorted_by_pos(final(v)@),
        final(v)@.to_multiset() == old(v)@.to_multiset(),
        exists|perm: Seq<int>| #[trigger] stable_reorder(old(v)@, final(v)@, perm),
{
    broadcast use vstd::seq_lib::to_multiset_update;
    let n = v.len();
    let ghost mut perm: Seq<int> = Seq::new(n as nat, |k: int| k);
    let mut i: usize = 1;
    while i < n
        invariant
            n == v@.len(),
            1 <= i || n == 0,
            forall|a: int, b: int| 0 <= a < b < i && b < n ==> pos_le((#[trigger] v@[a]).at_spec(), (#[trigger] v@[b]).at_spec()),
            v@.to_multiset() == old(v)@.to_multiset(),
            stable_reorder(old(v)@, v@, perm),
        decreases n - i,
    {
        let mut j: usize = i;
        while j > 0 && strictly_before(v[j].at(), v[j - 1].at())
            invariant
                n == v@.len(),
                0 <= j <= i < n,
                forall|a: int, b: int| 0 <= a < b <= i && b != j ==> pos_le((#[trigger] v@[a]).at_spec(), (#[trigger] v@[b]).at_spec()),
                forall|b: int| j < b <= i ==> pos_le(v@[j as int].at_spec(), (#[trigger] v@[b]).at_spec()),
                v@.to_multiset() == old(v)@.to_multiset(),
                stable_reorder(old(v)@, v@, perm),
            decreases j,
        {
            let x = v[j];
            let y = v[j - 1];
            let ghost s0 = v@;
            v[j] = y;
            v[j - 1] = x;
            proof {
                broadcast use vstd::multiset::group_multiset_axioms;
                let s1 = s0.update(j as int, y);
                assert(v@ == s1.update(j - 1, x));
                vstd::seq_lib::to_multiset_update(s0, j as int, y);
                vstd::seq_lib::to_multiset_update(s1, j - 1, x);
                assert(s1[j - 1] == y);
                vstd::seq_lib::to_multiset_contains(s0, x);
                assert(s0.contains(x)) by { assert(s0[j as int] == x); }
                let m = s0.to_multiset();
                assert(m.count(x) > 0);
                assert(v@.to_multiset() =~= m);
                let p0 = perm;
                perm = p0.update(j as int, p0[j - 1]).update(j - 1, p0[j as int]);
                assert(!pos_le(y.at_spec(), x.at_spec()));
                assert forall|a: int, b: int| 0 <= a < b < v@.len() && (#[trigger] v@[a]).at_spec() == (#[trigger] v@[b]).at_spec()
                    implies perm[a] < perm[b] by {
                    let fa = if a == j { j - 1 } else if a == j - 1 { j as int } else { a };
                    let fb = if b == j { j - 1 } else if b == j - 1 { j as int } else { b };
                    assert(v@[a] == s0[fa] && v@[b] == s0[fb]);
                    assert(perm[a] == p0[fa] && perm[b] == p0[fb]);
                    if fa < fb {
                        assert(p0[fa] < p0[fb]);
                    } else {
                        assert(fb < fa);
                        assert(a == j - 1 && b == j);
                        assert(false);
                    }
                }
                assert forall|a: int, b: int| 0 <= a < v@.len() && 0 <= b < v@.len() && a != b implies #[trigger] perm[a] != #[trigger] perm[b] by {
                    let fa = if a == j { j - 1 } else if a == j - 1 { j as int } else { a };
                    let fb = if b == j { j - 1 } else if b == j - 1 { j as int } else { b };
                    assert(perm[a] == p0[fa] && perm[b] == p0[fb]);
                }
                assert forall|k: int| 0 <= k < v@.len() implies 0 <= #[trigger] perm[k] < v@.len() && v@[k] == old(v)@[perm[k]] by {
                    let fk = if k == j { j - 1 } else if k == j - 1 { j as int } else { k };
                    assert(perm[k] == p0[fk] && v@[k] == s0[fk]);
                }
            }
            j = j - 1;
        }
        proof {
            assert forall|a: int, b: int| 0 <= a < b <= i implies pos_le((#[trigger] v@[a]).at_spec(), (#[trigger] v@[b]).at_spec()) by {
                if b == j && j > 0 {
                    assert(pos_le(v@[j - 1].at_spec(), v@[j as int].at_spec()));
                    if a < j - 1 {
                        assert(pos_le(v@[a].at_spec(), v@[j - 1].at_spec()));
                    }
                }
            }
        }
        i = i + 1;
    }
}

/// The snapshot entries that the objects `objs` give, in order.
pub open spec fn entries(objs: Seq<Structure>) -> (Seq<GridPoint>, Seq<FloorData>, Seq<DoorData>, Seq<FurnitureData>)
    decreases objs.len(),
{
    if objs.len() == 0 {
        (seq![], seq![], seq![], seq![])
    } else {
        let (w, f, d, u) = entries(objs.drop_last());
        let s = objs.last();
        let p = point_of(s.pos);
        match s.kind {
            StructureKind::Wall => (w.push(p), f, d, u),
            StructureKind::Floor(t) => (w, f.push(FloorData { position: p, floor_type: t }), d, u),
            StructureKind::Door(o) => (w, f, d.push(DoorData { position: p, orientation: o }), u),
            StructureKind::Furniture(t, o) => (w, f, d, u.push(FurnitureData { position: p, furniture_type: t, orientation: o })),
            StructureKind::Window => (w, f, d, u),
        }
    }
}

impl SaveData {
    pub fn default() -> (r: SaveData)
        ensures
            r.walls@.len() == 0,
            r.floors@.len() == 0,
            r.doors@.len() == 0,
            r.furniture@.len() == 0,
    {
        SaveData { walls: Vec::new(), floors: Vec::new(), doors: Vec::new(), furniture: Vec::new() }
    }
}

/// The walls, floors, doors and furniture standing on the level, in the
/// order of its objects. Windows and work in progress are not saved.
pub fn collect_save_data(level: &Level) -> (r: SaveData)
    ensures
        (r.walls@, r.floors@, r.doors@, r.furniture@) == entries(level.structures@),
{
    let mut data = SaveData::default();
    let objs = &level.structures;
    let mut i: usize = 0;
    while i < objs.len()
        invariant
            0 <= i <= objs@.len(),
            (data.walls@, data.floors@, data.doors@, data.furniture@) == entries(objs@.take(i as int)),
        decreases objs@.len() - i,
    {
        let s = objs[i];
        proof {
            assert(objs@.take(i as int + 1).drop_last() =~= objs@.take(i as int));
            assert(objs@.take(i as int + 1).last() == s);
        }
        let p = GridPoint { x: s.pos.x, y: s.pos.y };
        match s.kind {
            StructureKind::Wall => data.walls.push(p),
            StructureKind::Floor(t) => data.floors.push(FloorData { position: p, floor_type: t }),
            StructureKind::Door(o) => data.doors.push(DoorData { position: p, orientation: o }),
            StructureKind::Furniture(t, o) => data.furniture.push(FurnitureData { position: p, furniture_type: t, orientation: o }),
            StructureKind::Window => {},
        }
        i = i + 1;
    }
    proof {
        assert(objs@.take(i as int) =~= objs@);
    }
    data
}

/// Puts every list of the snapshot in `(x, y)` order.
pub fn sort_save_data(data: &mut SaveData)
    ensures
        sorted_by_pos(final(data).walls@),
        sorted_by_pos(final(data).floors@),
        sorted_by_pos(final(data).doors@),
        sorted_by_pos(final(data).furniture@),
        final(data).walls@.to_multiset() == old(data).walls@.to_multiset(),
        final(data).floors@.to_multiset() == old(data).floors@.to_multiset(),
        final(data).doors@.to_multiset() == old(data).doors@.to_multiset(),
        final(data).furniture@.to_multiset() == old(data).furniture@.to_multiset(),
        exists|perm: Seq<int>| #[trigger] stable_reorder(old(data).walls@, final(data).walls@, perm),
        exists|perm: Seq<int>| #[trigger] stable_reorder(old(data).floors@, final(data).floors@, perm),
        exists|perm: Seq<int>| #[trigger] stable_reorder(old(data).doors@, final(data).doors@, perm),
        exists|perm: Seq<int>| #[trigger] stable_reorder(old(data).furniture@, final(data).furniture@, perm),
{
    sort_by_position(&mut data.walls);
    let ghost w1 = data.walls@;
    assert(exists|perm: Seq<int>| #[trigger] stable_reorder(old(data).walls@, w1, perm));
    sort_by_position(&mut data.floors);
    let ghost f1 = data.floors@;
    assert(exists|perm: Seq<int>| #[trigger] stable_reorder(old(data).floors@, f1, perm));
    sort_by_position(&mut data.doors);
    let ghost d1 = data.doors@;
    assert(exists|perm: Seq<int>| #[trigger] stable_reorder(old(data).doors@, d1, perm));
    sort_by_position(&mut data.furniture);
    assert(data.walls@ == w1 && data.floors@ == f1 && data.doors@ == d1);
}

impl Level {
    /// Removes every object and all work in progress, and empties the ledger.
    pub fn clear_structures(&mut self)
        requires
            old(self).wf(),
        ensures
            final(self).wf(),
            final(self).structures@.len() == 0,
            final(self).blueprints@.len() == 0,
            final(self).markers@.len() == 0,
            final(self).map.width == old(self).map.width,
            final(self).map.height == old(self).map.height,
            forall|p: GridPosition| #[trigger] final(self).map.holds(p) ==> final(self).map@[p] == crate::occupancy::empty_tile(),
            final(self).settings == old(self).settings,
            final(self).money == old(self).money,
            final(self).workers == old(self).workers,
            final(self).next_id == old(self).next_id,
    {
        self.map = BuildingMap::new(self.settings.width, self.settings.height);
        self.structures = Vec::new();
        self.blueprints = Vec::new();
        self.markers = Vec::new();
    }

    /// Whether every tile of the footprint is on the grid and none is a door.
    fn footprint_doorless(&self, t: FurnitureType, p: GridPosition, o: FurnitureOrientation) -> (r: bool)
        requires
            self.wf(),
            fits_footprint(p),
        ensures
            r == forall|q: GridPosition| in_rect(p, oriented_dims(t, o).0, oriented_dims(t, o).1, q)
                ==> #[trigger] self.map.holds(q) && !self.map.door_at(q),
    {
        let tiles = t.tiles_occupied(p, o);
        let ghost w = oriented_dims(t, o).0;
        let ghost h = oriented_dims(t, o).1;
        let mut i: usize = 0;
        while i < tiles.len()
            invariant
                self.wf(),
                w == oriented_dims(t, o).0,
                h == oriented_dims(t, o).1,
                0 <= i <= tiles@.len(),
                lists_rect(tiles@, p, w, h),
                forall|j: int| 0 <= j < i ==> self.map.holds(#[trigger] tiles@[j]) && !self.map.door_at(tiles@[j]),
            decreases tiles@.len() - i,
        {
            let q = tiles[i];
            if !(self.map.contains_pos(q) && !self.map.has_door(q)) {
                assert(in_rect(p, w, h, tiles@[i as int]));
                return false;
            }
            i = i + 1;
        }
        proof {
            assert forall|q: GridPosition| in_rect(p, w, h, q) implies #[trigger] self.map.holds(q) && !self.map.door_at(q) by {
                assert(tiles@.contains(q));
                let j = choose|j: int| 0 <= j < tiles@.len() && tiles@[j] == q;
                assert(self.map.holds(tiles@[j]));
            }
        }
        true
    }

    /// Marks every tile of a door-free footprint occupied.
    fn occupy_footprint(&mut self, t: FurnitureType, p: GridPosition, o: FurnitureOrientation)
        requires
            old(self).wf(),
            fits_footprint(p),
            forall|q: GridPosition| in_rect(p, oriented_dims(t, o).0, oriented_dims(t, o).1, q)
                ==> #[trigger] old(self).map.holds(q) && !old(self).map.door_at(q),
        ensures
            final(self).wf(),
            final(self).map@ == occupied_over(old(self).map@, p, oriented_dims(t, o).0, oriented_dims(t, o).1),
            final(self).map.width == old(self).map.width,
            final(self).map.height == old(self).map.height,
            final(self).settings == old(self).settings,
            final(self).money == old(self).money,
            final(self).structures == old(self).structures,
            final(self).blueprints == old(self).blueprints,
            final(self).markers == old(self).markers,
            final(self).workers == old(self).workers,
            final(self).next_id == old(self).next_id,
    {
        let tiles = t.tiles_occupied(p, o);
        let ghost w = oriented_dims(t, o).0;
        let ghost h = oriented_dims(t, o).1;
        let ghost m0 = self.map@;
        let mut i: usize = 0;
        while i < tiles.len()
            invariant
                self.wf(),
                w == oriented_dims(t, o).0,
                h == oriented_dims(t, o).1,
                m0 == old(self).map@,
                0 <= i <= tiles@.len(),
                lists_rect(tiles@, p, w, h),
                self.map.width == old(self).map.width,
                self.map.height == old(self).map.height,
                forall|q: GridPosition| in_rect(p, w, h, q) ==> #[trigger] old(self).map.holds(q) && !old(self).map.door_at(q),
                forall|q: GridPosition| #[trigger] m0.contains_key(q) ==> self.map@[q] == if tiles@.take(i as int).contains(q) {
                    marked_occupied(m0[q])
                } else {
                    m0[q]
                },
                self.settings == old(self).settings,
                self.money == old(self).money,
                self.structures == old(self).structures,
                self.blueprints == old(self).blueprints,
                self.markers == old(self).markers,
                self.workers == old(self).workers,
                self.next_id == old(self).next_id,
            decreases tiles@.len() - i,
        {
            let q = tiles[i];
            assert(in_rect(p, w, h, tiles@[i as int]));
            assert(old(self).map.holds(q) && !old(self).map.door_at(q));
            proof {
                assert(tiles@.take(i as int + 1) =~= tiles@.take(i as int).push(q));
            }
            self.map.mark_occupied(q);
            proof {
                assert forall|r: GridPosition| #[trigger] m0.contains_key(r) implies self.map@[r] == if tiles@.take(i as int + 1).contains(r) {
                    marked_occupied(m0[r])
                } else {
                    m0[r]
                } by {
                    if r != q {
                        assert(tiles@.take(i as int + 1).contains(r) == tiles@.take(i as int).contains(r)) by {
                            if tiles@.take(i as int + 1).contains(r) {
                                let j = choose|j: int| 0 <= j < i + 1 && #[trigger] tiles@.take(i as int + 1)[j] == r;
                                assert(tiles@.take(i as int)[j] == r);
                            }
                        }
                    } else {
                        assert(tiles@.take(i as int + 1)[i as int] == q);
                    }
                }
            }
            i = i + 1;
        }
        proof {
            assert(tiles@.take(i as int) =~= tiles@);
            let target = occupied_over(old(self).map@, p, w, h);
            assert forall|q: GridPosition| #[trigger] m0.contains_key(q) implies self.map@[q] == target[q] by {
                if tiles@.contains(q) {
                    let j = choose|j: int| 0 <= j < tiles@.len() && tiles@[j] == q;
                    assert(in_rect(p, w, h, tiles@[j]));
                }
            }
            assert(self.map@ =~= target);
        }
    }
}

/// Replaces what stands on the level by the snapshot: the ledger and the
/// objects are reset, work in progress is dropped, then floors, walls, doors
/// and furniture are put down in that order. Entries off the grid are
/// skipped, as is a door whose tiles are taken by something other than a
/// wall (it replaces walls) and furniture with a tile off the grid or on a door.
pub fn apply_save_data(level: &mut Level, data: &SaveData)
    requires
        old(level).wf(),
        old(level).next_id + data.walls@.len() + data.floors@.len() + data.doors@.len() + data.furniture@.len() < u64::MAX,
    ensures
        exists|ss: Seq<Level>| #![trigger ss[0]] {
            let n = data.floors@.len() + data.walls@.len() + data.doors@.len() + data.furniture@.len();
            &&& ss.len() == n + 1
            &&& cleared(*old(level), ss[0])
            &&& ss[n as int] == *final(level)
            &&& forall|t: int| 0 <= t < n ==> #[trigger] load_step(ss[t], ss[t + 1], data, t)
        },
        final(level).wf(),
        final(level).blueprints@.len() == 0,
        final(level).markers@.len() == 0,
        final(level).settings == old(level).settings,
        final(level).money == old(level).money,
        final(level).workers@.len() == old(level).workers@.len(),
        forall|j: int| 0 <= j < final(level).structures@.len() ==> from_entry(data, #[trigger] final(level).structures@[j]),
        old(level).next_id <= final(level).next_id,
        final(level).next_id <= old(level).next_id + data.walls@.len() + data.floors@.len() + data.doors@.len() + data.furniture@.len(),
        forall|i: int| 0 <= i < data.floors@.len() && final(level).map.holds(position_of((#[trigger] data.floors@[i]).position))
            ==> final(level).map@[position_of(data.floors@[i].position)].floor,
{
    level.clear_structures();
    let ghost c0 = *level;
    let ghost mut ss: Seq<Level> = seq![*level];
    let ghost n0 = old(level).next_id as int;
    let ghost total = data.walls@.len() + data.floors@.len() + data.doors@.len() + data.furniture@.len();
    let mut i: usize = 0;
    while i < data.floors.len()
        invariant
            ss.len() == 0 + i + 1,
            ss[0] == c0,
            cleared(*old(level), c0),
            ss[ss.len() - 1] == *level,
            forall|t: int| 0 <= t < ss.len() - 1 ==> #[trigger] load_step(ss[t], ss[t + 1], data, t),
            level.wf(),
            level.blueprints@.len() == 0,
            level.markers@.len() == 0,
            level.settings == old(level).settings,
            level.money == old(level).money,
            level.workers@.len() == old(level).workers@.len(),
            n0 == old(level).next_id,
            n0 <= level.next_id,
            forall|j: int| 0 <= j < level.structures@.len() ==> from_entry(data, #[trigger] level.structures@[j]),
            total == data.walls@.len() + data.floors@.len() + data.doors@.len() + data.furniture@.len(),
            n0 + total < u64::MAX,
            level.next_id <= n0 + i,
            0 <= i <= data.floors@.len(),
            forall|k: int| 0 <= k < i && level.map.holds(position_of((#[trigger] data.floors@[k]).position))
                ==> level.map@[position_of(data.floors@[k].position)].floor,
        decreases data.floors@.len() - i,
    {
        let ghost pre = *level;
        let f = data.floors[i];
        let p = GridPosition { x: f.position.x, y: f.position.y };
        if level.map.contains_pos(p) {
            level.map.place_floor(p);
            let id = level.alloc_id();
            level.structures.push(Structure { id, kind: StructureKind::Floor(f.floor_type), pos: p });
            proof {
                assert(data.floors@[i as int] == f);
                assert(FloorData { position: point_of(p), floor_type: f.floor_type } == f);
                assert(data.floors@.contains(f));
            }
        }
        proof {
            assert(floor_entry(pre, *level, data.floors@[i as int]));
            let t = 0 + i;
            assert(load_step(pre, *level, data, t));
            let prev = ss;
            ss = ss.push(*level);
            assert forall|u: int| 0 <= u < ss.len() - 1 implies #[trigger] load_step(ss[u], ss[u + 1], data, u) by {
                if u < prev.len() - 1 {
                    assert(ss[u] == prev[u] && ss[u + 1] == prev[u + 1]);
                }
            }
        }
        i = i + 1;
    }
    let ghost floors_done = data.floors@.len();
    let mut i: usize = 0;
    while i < data.walls.len()
        invariant
            ss.len() == data.floors@.len() + i + 1,
            ss[0] == c0,
            cleared(*old(level), c0),
            ss[ss.len() - 1] == *level,
            forall|t: int| 0 <= t < ss.len() - 1 ==> #[trigger] load_step(ss[t], ss[t + 1], data, t),
            level.wf(),
            level.blueprints@.len() == 0,
            level.markers@.len() == 0,
            level.settings == old(level).settings,
            level.money == old(level).money,
            level.workers@.len() == old(level).workers@.len(),
            n0 == old(level).next_id,
            n0 <= level.next_id,
            forall|j: int| 0 <= j < level.structures@.len() ==> from_entry(data, #[trigger] level.structures@[j]),
            total == data.walls@.len() + data.floors@.len() + data.doors@.len() + data.furniture@.len(),
            n0 + total < u64::MAX,
            level.next_id <= n0 + data.floors@.len() + i,
            0 <= i <= data.walls@.len(),
            forall|k: int| 0 <= k < data.floors@.len() && level.map.holds(position_of((#[trigger] data.floors@[k]).position))
                ==> level.map@[position_of(data.floors@[k].position)].floor,
        decreases data.walls@.len() - i,
    {
        let ghost pre = *level;
        let w = data.walls[i];
        let p = GridPosition { x: w.x, y: w.y };
        if level.map.contains_pos(p) && !level.map.has_door(p) {
            let id = level.alloc_id();
            level.map.place_wall(p, id);
            level.structures.push(Structure { id, kind: StructureKind::Wall, pos: p });
            proof {
                assert(data.walls@[i as int] == w);
                assert(point_of(p) == w);
                assert(data.walls@.contains(w));
            }
        }
        proof {
            assert(wall_entry(pre, *level, data.walls@[i as int]));
            let t = data.floors@.len() + i;
            assert(load_step(pre, *level, data, t));
            let prev = ss;
            ss = ss.push(*level);
            assert forall|u: int| 0 <= u < ss.len() - 1 implies #[trigger] load_step(ss[u], ss[u + 1], data, u) by {
                if u < prev.len() - 1 {
                    assert(ss[u] == prev[u] && ss[u + 1] == prev[u + 1]);
                }
            }
        }
        i = i + 1;
    }
    let mut i: usize = 0;
    while i < data.doors.len()
        invariant
            ss.len() == data.floors@.len() + data.walls@.len() + i + 1,
            ss[0] == c0,
            cleared(*old(level), c0),
            ss[ss.len() - 1] == *level,
            forall|t: int| 0 <= t < ss.len() - 1 ==> #[trigger] load_step(ss[t], ss[t + 1], data, t),
            level.wf(),
            level.blueprints@.len() == 0,
            level.markers@.len() == 0,
            level.settings == old(level).settings,
            level.money == old(level).money,
            level.workers@.len() == old(level).workers@.len(),
            n0 == old(level).next_id,
            n0 <= level.next_id,
            forall|j: int| 0 <= j < level.structures@.len() ==> from_entry(data, #[trigger] level.structures@[j]),
            total == data.walls@.len() + data.floors@.len() + data.doors@.len() + data.furniture@.len(),
            n0 + total < u64::MAX,
            level.next_id <= n0 + data.floors@.len() + data.walls@.len() + i,
            0 <= i <= data.doors@.len(),
            forall|k: int| 0 <= k < data.floors@.len() && level.map.holds(position_of((#[trigger] data.floors@[k]).position))
                ==> level.map@[position_of(data.floors@[k].position)].floor,
        decreases data.doors@.len() - i,
    {
        let ghost pre = *level;
        let d = data.doors[i];
        let p = GridPosition { x: d.position.x, y: d.position.y };
        if p.x <= crate::building::MAX_FOOTPRINT_BASE && p.y <= crate::building::MAX_FOOTPRINT_BASE {
            let tiles = Door::new(d.orientation).tiles_occupied(p);
            let a = tiles[0];
            let b = tiles[1];
            if level.map.contains_pos(a) && level.map.contains_pos(b) {
                let ta = level.map.tile(a);
                let tb = level.map.tile(b);
                if !(ta.door.is_some() || (ta.occupied && ta.wall.is_none()) || tb.door.is_some() || (tb.occupied && tb.wall.is_none())) {
                    let id = level.alloc_id();
                    let ghost sb = level.structures@;
                    level.remove_objects(ta.wall, tb.wall);
                    proof {
                        let pred = |s: Structure| !crate::level::hit(ta.wall, tb.wall, s.id);
                        assert forall|j: int| 0 <= j < level.structures@.len() implies from_entry(data, #[trigger] level.structures@[j]) by {
                            sb.lemma_filter_pred(pred, j);
                            sb.lemma_filter_contains_rev(pred, level.structures@[j]);
                            let q = choose|q: int| 0 <= q < sb.len() && sb[q] == level.structures@[j];
                            assert(from_entry(data, sb[q]));
                        }
                    }
                    level.map.place_door_tile(a, id);
                    level.map.place_door_tile(b, id);
                    level.structures.push(Structure { id, kind: StructureKind::Door(d.orientation), pos: p });
                    proof {
                        assert(data.doors@[i as int] == d);
                        assert(DoorData { position: point_of(p), orientation: d.orientation } == d);
                        assert(data.doors@.contains(d));
                    }
                }
            }
        }
        proof {
            assert(door_entry(pre, *level, data.doors@[i as int]));
            let t = data.floors@.len() + data.walls@.len() + i;
            assert(load_step(pre, *level, data, t));
            let prev = ss;
            ss = ss.push(*level);
            assert forall|u: int| 0 <= u < ss.len() - 1 implies #[trigger] load_step(ss[u], ss[u + 1], data, u) by {
                if u < prev.len() - 1 {
                    assert(ss[u] == prev[u] && ss[u + 1] == prev[u + 1]);
                }
            }
        }
        i = i + 1;
    }
    let mut i: usize = 0;
    while i < data.furniture.len()
        invariant
            ss.len() == data.floors@.len() + data.walls@.len() + data.doors@.len() + i + 1,
            ss[0] == c0,
            cleared(*old(level), c0),
            ss[ss.len() - 1] == *level,
            forall|t: int| 0 <= t < ss.len() - 1 ==> #[trigger] load_step(ss[t], ss[t + 1], data, t),
            level.wf(),
            level.blueprints@.len() == 0,
            level.markers@.len() == 0,
            level.settings == old(level).settings,
            level.money == old(level).money,
            level.workers@.len() == old(level).workers@.len(),
            n0 == old(level).next_id,
            n0 <= level.next_id,
            forall|j: int| 0 <= j < level.structures@.len() ==> from_entry(data, #[trigger] level.structures@[j]),
            total == data.walls@.len() + data.floors@.len() + data.doors@.len() + data.furniture@.len(),
            n0 + total < u64::MAX,
            level.next_id <= n0 + data.floors@.len() + data.walls@.len() + data.doors@.len() + i,
            0 <= i <= data.furniture@.len(),
            forall|k: int| 0 <= k < data.floors@.len() && level.map.holds(position_of((#[trigger] data.floors@[k]).position))
                ==> level.map@[position_of(data.floors@[k].position)].floor,
        decreases data.furniture@.len() - i,
    {
        let ghost pre = *level;
        let f = data.furniture[i];
        let p = GridPosition { x: f.position.x, y: f.position.y };
        if p.x <= crate::building::MAX_FOOTPRINT_BASE && p.y <= crate::building::MAX_FOOTPRINT_BASE && level.map.contains_pos(p) {
            if level.footprint_doorless(f.furniture_type, p, f.orientation) {
                let ghost mb = level.map;
                level.occupy_footprint(f.furniture_type, p, f.orientation);
                proof {
                    assert forall|k: int| 0 <= k < data.floors@.len() && level.map.holds(position_of((#[trigger] data.floors@[k]).position))
                        implies level.map@[position_of(data.floors@[k].position)].floor by {
                        let q = position_of(data.floors@[k].position);
                        assert(mb.holds(q) == level.map.holds(q));
                        assert(mb.holds(q));
                    }
                }
                let id = level.alloc_id();
                level.structures.push(Structure { id, kind: StructureKind::Furniture(f.furniture_type, f.orientation), pos: p });
                proof {
                    assert(data.furniture@[i as int] == f);
                    assert(FurnitureData { position: point_of(p), furniture_type: f.furniture_type, orientation: f.orientation } == f);
                    assert(data.furniture@.contains(f));
                }
            }
        }
        proof {
            assert(furniture_entry(pre, *level, data.furniture@[i as int]));
            let t = data.floors@.len() + data.walls@.len() + data.doors@.len() + i;
            assert(load_step(pre, *level, data, t));
            let prev = ss;
            ss = ss.push(*level);
            assert forall|u: int| 0 <= u < ss.len() - 1 implies #[trigger] load_step(ss[u], ss[u + 1], data, u) by {
                if u < prev.len() - 1 {
                    assert(ss[u] == prev[u] && ss[u + 1] == prev[u + 1]);
                }
            }
        }
        i = i + 1;
    }
}

/// A five by five walled room, floored in wood inside, with a horizontal
/// door in the middle of its bottom wall, centred on the grid's middle.
pub fn default_room_layout() -> (r: SaveData)
    ensures
        r.floors@.len() == 9,
        r.walls@.len() == 14,
        r.doors@ == seq![DoorData { position: GridPoint { x: 49, y: 48 }, orientation: DoorOrientation::Horizontal }],
        r.furniture@.len() == 0,
        sorted_by_pos(r.walls@),
        sorted_by_pos(r.floors@),
        forall|i: int| 0 <= i < r.floors@.len() ==> (#[trigger] r.floors@[i]).floor_type == FloorType::Wood,
{
    let mut data = SaveData::default();
    let min: i32 = 48;
    let max: i32 = 52;
    let mut x: i32 = min + 1;
    while x <= max - 1
        invariant
            min == 48,
            max == 52,
            49 <= x <= 52,
            data.floors@.len() == 3 * (x - 49),
            data.walls@.len() == 0,
            data.doors@.len() == 0,
            data.furniture@.len() == 0,
            forall|i: int| 0 <= i < data.floors@.len() ==> (#[trigger] data.floors@[i]).floor_type == FloorType::Wood,
        decreases 52 - x,
    {
        let mut y: i32 = min + 1;
        while y <= max - 1
            invariant
                min == 48,
                max == 52,
            min == 48,
            max == 52,
                49 <= x <= 51,
                49 <= y <= 52,
                data.floors@.len() == 3 * (x - 49) + (y - 49),
                data.walls@.len() == 0,
                data.doors@.len() == 0,
                data.furniture@.len() == 0,
                forall|i: int| 0 <= i < data.floors@.len() ==> (#[trigger] data.floors@[i]).floor_type == FloorType::Wood,
            decreases 52 - y,
        {
            data.floors.push(FloorData { position: GridPoint { x, y }, floor_type: FloorType::Wood });
            y = y + 1;
        }
        x = x + 1;
    }
    let mut x: i32 = min;
    while x <= max
        invariant
            min == 48,
            max == 52,
            48 <= x <= 53,
            data.floors@.len() == 9,
            data.walls@.len() == if x <= 49 { 2 * (x - 48) } else if x <= 51 { 2 + (x - 49) } else { 4 + 2 * (x - 51) },
            data.doors@.len() == 0,
            data.furniture@.len() == 0,
            forall|i: int| 0 <= i < data.floors@.len() ==> (#[trigger] data.floors@[i]).floor_type == FloorType::Wood,
        decreases 53 - x,
    {
        if x != 49 && x != 50 {
            data.walls.push(GridPoint { x, y: min });
        }
        data.walls.push(GridPoint { x, y: max });
        x = x + 1;
    }
    let mut y: i32 = min + 1;
    while y <= max - 1
        invariant
            min == 48,
            max == 52,
            49 <= y <= 52,
            data.floors@.len() == 9,
            data.walls@.len() == 8 + 2 * (y - 49),
            data.doors@.len() == 0,
            data.furniture@.len() == 0,
            forall|i: int| 0 <= i < data.floors@.len() ==> (#[trigger] data.floors@[i]).floor_type == FloorType::Wood,
        decreases 52 - y,
    {
        data.walls.push(GridPoint { x: min, y });
        data.walls.push(GridPoint { x: max, y });
        y = y + 1;
    }
    data.doors.push(DoorData { position: GridPoint { x: 49, y: min }, orientation: DoorOrientation::Horizontal });
    let ghost f0 = data.floors@;
    let ghost w0 = data.walls@;
    let ghost d0 = data.doors@;
    let ghost u0 = data.furniture@;
    sort_save_data(&mut data);
    proof {
        vstd::seq_lib::to_multiset_len(f0);
        vstd::seq_lib::to_multiset_len(data.floors@);
        vstd::seq_lib::to_multiset_len(w0);
        vstd::seq_lib::to_multiset_len(data.walls@);
        vstd::seq_lib::to_multiset_len(d0);
        vstd::seq_lib::to_multiset_len(data.doors@);
        vstd::seq_lib::to_multiset_len(u0);
        vstd::seq_lib::to_multiset_len(data.furniture@);
        let door = DoorData { position: GridPoint { x: 49, y: 48 }, orientation: DoorOrientation::Horizontal };
        assert(d0 == seq![door]);
        vstd::seq_lib::to_multiset_contains(d0, data.doors@[0]);
        vstd::seq_lib::to_multiset_contains(data.doors@, data.doors@[0]);
        assert(data.doors@.contains(data.doors@[0]));
        assert(d0.contains(data.doors@[0]));
        assert(data.doors@ =~= seq![door]);
        assert forall|i: int| 0 <= i < data.floors@.len() implies (#[trigger] data.floors@[i]).floor_type == FloorType::Wood by {
            vstd::seq_lib::to_multiset_contains(f0, data.floors@[i]);
            vstd::seq_lib::to_multiset_contains(data.floors@, data.floors@[i]);
            assert(data.floors@.contains(data.floors@[i]));
            let k = choose|k: int| 0 <= k < f0.len() && f0[k] == data.floors@[i];
        }
    }
    data
}

} // verus!
