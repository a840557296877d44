//! Zones: rooms classified by the furniture in them, with a quality rating.
use vstd::prelude::*;
use vstd::string::StringExecFns;
use crate::grid::GridPosition;
use crate::furniture::FurnitureType;
use crate::level::{Structure, StructureKind};
use crate::rooms::{Room, disjoint};

verus! {

#[derive(Debug, Clone, Copy, PartialEq, Eq, Structural)]
pub enum ZoneType {
    Lobby,
    GuestBedroom,
    Relaxation,
    Luxury,
    FamilyFun,
    Adventure,
    Culinary,
}

#[derive(Debug, Clone, Copy, PartialEq, Eq, Structural)]
pub enum ZoneQuality {
    Invalid,
    Basic,
    Good,
    Excellent,
    Luxury,
}

#[derive(Debug, Clone, Copy, PartialEq, Eq, Structural)]
pub enum RequiredFurniture {
    Bed,
    Desk,
    Chair,
    Dresser,
    Nightstand,
    ReceptionConsole,
}

/// What a zone type needs of a room.
pub struct ZoneRequirements {
    pub min_tiles: usize,
    pub required_furniture: Vec<RequiredFurniture>,
}

/// A classified room.
pub struct Zone {
    pub zone_type: ZoneType,
    pub tiles: Vec<GridPosition>,
    pub quality: ZoneQuality,
    pub name: String,
}

pub open spec fn min_tiles_of(t: ZoneType) -> nat {
    match t {
        ZoneType::Lobby => 15,
        ZoneType::GuestBedroom => 12,
        ZoneType::Relaxation => 20,
        ZoneType::Luxury => 30,
        ZoneType::FamilyFun => 25,
        ZoneType::Adventure => 25,
        ZoneType::Culinary => 20,
    }
}

/// Bedroom quality: none under twelve tiles, else by furniture count.
pub open spec fn bedroom_quality(tiles: nat, furniture: nat) -> ZoneQuality {
    if tiles < 12 {
        ZoneQuality::Invalid
    } else if furniture <= 1 {
        ZoneQuality::Basic
    } else if furniture <= 3 {
        ZoneQuality::Good
    } else if furniture <= 5 {
        ZoneQuality::Excellent
    } else {
        ZoneQuality::Luxury
    }
}

/// Lobby quality: none under fifteen tiles, else by size and furniture together.
pub open spec fn lobby_quality(tiles: nat, furniture: nat) -> ZoneQuality {
    if tiles < 15 {
        ZoneQuality::Invalid
    } else if tiles >= 40 && furniture >= 5 {
        ZoneQuality::Luxury
    } else if tiles >= 30 && furniture >= 4 {
        ZoneQuality::Excellent
    } else if tiles >= 20 && furniture >= 2 {
        ZoneQuality::Good
    } else {
        ZoneQuality::Basic
    }
}

pub open spec fn digit_char(d: nat) -> char {
    if d == 0 { '0' } else if d == 1 { '1' } else if d == 2 { '2' } else if d == 3 { '3' } else if d == 4 { '4' }
    else if d == 5 { '5' } else if d == 6 { '6' } else if d == 7 { '7' } else if d == 8 { '8' } else { '9' }
}

/// The decimal digits of `n`.
pub open spec fn decimal(n: nat) -> Seq<char>
    decreases n,
{
    if n < 10 { seq![digit_char(n)] } else { decimal(n / 10) + seq![digit_char(n % 10)] }
}

pub open spec fn furniture_at(s: Structure) -> bool {
    s.kind matches StructureKind::Furniture(_, _)
}

/// The furniture that a zone type requires to be present.
pub open spec fn key_piece(z: ZoneType, s: Structure) -> bool {
    match z {
        ZoneType::GuestBedroom => s.kind matches StructureKind::Furniture(FurnitureType::Bed(_), _),
        ZoneType::Lobby => s.kind matches StructureKind::Furniture(FurnitureType::ReceptionConsole, _),
        _ => false,
    }
}

/// How many pieces of furniture stand on a tile of `tiles`.
pub open spec fn furniture_count(objs: Seq<Structure>, tiles: Seq<GridPosition>) -> nat
    decreases objs.len(),
{
    if objs.len() == 0 {
        0
    } else {
        furniture_count(objs.drop_last(), tiles) + if furniture_at(objs.last()) && tiles.contains(objs.last().pos) {
            1nat
        } else {
            0nat
        }
    }
}

pub open spec fn has_key_piece(z: ZoneType, objs: Seq<Structure>, tiles: Seq<GridPosition>) -> bool {
    exists|i: int| 0 <= i < objs.len() && key_piece(z, #[trigger] objs[i]) && tiles.contains(objs[i].pos)
}

/// A room of `tiles` holds the key piece of `z` and is large enough for it.
pub open spec fn qualifies(z: ZoneType, objs: Seq<Structure>, tiles: Seq<GridPosition>) -> bool {
    has_key_piece(z, objs, tiles) && tiles.len() >= min_tiles_of(z)
}

pub open spec fn quality_for(z: ZoneType, tiles: nat, furniture: nat) -> ZoneQuality {
    if z == ZoneType::Lobby { lobby_quality(tiles, furniture) } else { bedroom_quality(tiles, furniture) }
}

pub open spec fn overlaps(a: Seq<GridPosition>, b: Seq<GridPosition>) -> bool {
    exists|t: GridPosition| a.contains(t) && #[trigger] b.contains(t)
}

pub open spec fn zone_label(t: ZoneType) -> &'static str {
    match t {
        ZoneType::Lobby => "Lobby",
        ZoneType::GuestBedroom => "Guest Bedroom",
        ZoneType::Relaxation => "Relaxation Zone",
        ZoneType::Luxury => "Luxury Zone",
        ZoneType::FamilyFun => "Family/Fun Zone",
        ZoneType::Adventure => "Adventure Zone",
        ZoneType::Culinary => "Culinary Zone",
    }
}

impl ZoneType {
    pub fn name(&self) -> (r: &'static str)
        ensures
            r == zone_label(*self),
    {
        match self {
            ZoneType::Lobby => "Lobby",
            ZoneType::GuestBedroom => "Guest Bedroom",
            ZoneType::Relaxation => "Relaxation Zone",
            ZoneType::Luxury => "Luxury Zone",
            ZoneType::FamilyFun => "Family/Fun Zone",
            ZoneType::Adventure => "Adventure Zone",
            ZoneType::Culinary => "Culinary Zone",
        }
    }

    pub fn requirements(&self) -> (r: ZoneRequirements)
        ensures
            r.min_tiles == min_tiles_of(*self),
            r.required_furniture@ == match *self {
                ZoneType::Lobby => seq![RequiredFurniture::ReceptionConsole],
                ZoneType::GuestBedroom => seq![RequiredFurniture::Bed],
                _ => Seq::<RequiredFurniture>::empty(),
            },
    {
        match self {
            ZoneType::Lobby => ZoneRequirements { min_tiles: 15, required_furniture: vec![RequiredFurniture::ReceptionConsole] },
            ZoneType::GuestBedroom => ZoneRequirements { min_tiles: 12, required_furniture: vec![RequiredFurniture::Bed] },
            ZoneType::Relaxation => ZoneRequirements { min_tiles: 20, required_furniture: Vec::new() },
            ZoneType::Luxury => ZoneRequirements { min_tiles: 30, required_furniture: Vec::new() },
            ZoneType::FamilyFun => ZoneRequirements { min_tiles: 25, required_furniture: Vec::new() },
            ZoneType::Adventure => ZoneRequirements { min_tiles: 25, required_furniture: Vec::new() },
            ZoneType::Culinary => ZoneRequirements { min_tiles: 20, required_furniture: Vec::new() },
        }
    }
}

pub open spec fn quality_label(q: ZoneQuality) -> &'static str {
    match q {
        ZoneQuality::Invalid => "Invalid",
        ZoneQuality::Basic => "Basic",
        ZoneQuality::Good => "Good",
        ZoneQuality::Excellent => "Excellent",
        ZoneQuality::Luxury => "Luxury",
    }
}

impl ZoneQuality {
    pub fn stars(&self) -> (r: u8)
        ensures
            r == match *self {
                ZoneQuality::Invalid => 0u8,
                ZoneQuality::Basic => 1u8,
                ZoneQuality::Good => 2u8,
                ZoneQuality::Excellent => 3u8,
                ZoneQuality::Luxury => 4u8,
            },
    {
        match self {
            ZoneQuality::Invalid => 0,
            ZoneQuality::Basic => 1,
            ZoneQuality::Good => 2,
            ZoneQuality::Excellent => 3,
            ZoneQuality::Luxury => 4,
        }
    }

    pub fn name(&self) -> (r: &'static str)
        ensures
            r == quality_label(*self),
    {
        match self {
            ZoneQuality::Invalid => "Invalid",
            ZoneQuality::Basic => "Basic",
            ZoneQuality::Good => "Good",
            ZoneQuality::Excellent => "Excellent",
            ZoneQuality::Luxury => "Luxury",
        }
    }
}

fn copy_tiles(v: &Vec<GridPosition>) -> (r: Vec<GridPosition>)
    ensures
        r@ == v@,
{
    let mut out: Vec<GridPosition> = Vec::new();
    let mut i: usize = 0;
    while i < v.len()
        invariant
            0 <= i <= v@.len(),
            out@ == v@.take(i as int),
        decreases v@.len() - i,
    {
        proof { assert(v@.take(i as int + 1) =~= v@.take(i as int).push(v@[i as int])); }
        out.push(v[i]);
        i = i + 1;
    }
    proof { assert(v@.take(i as int) =~= v@); }
    out
}

fn contains_pos(v: &Vec<GridPosition>, p: GridPosition) -> (r: bool)
    ensures
        r == v@.contains(p),
{
    let mut i: usize = 0;
    while i < v.len()
        invariant
            0 <= i <= v@.len(),
            forall|j: int| 0 <= j < i ==> v@[j] != p,
        decreases v@.len() - i,
    {
        if v[i] == p {
            return true;
        }
        i = i + 1;
    }
    false
}

fn digit_str(d: u64) -> (r: &'static str)
    requires
        d < 10,
    ensures
        r@ == seq![digit_char(d as nat)],
{
    proof {
        reveal_strlit("0"); reveal_strlit("1"); reveal_strlit("2"); reveal_strlit("3"); reveal_strlit("4");
        reveal_strlit("5"); reveal_strlit("6"); reveal_strlit("7"); reveal_strlit("8"); reveal_strlit("9");
    }
    if d == 0 { "0" } else if d == 1 { "1" } else if d == 2 { "2" } else if d == 3 { "3" } else if d == 4 { "4" }
    else if d == 5 { "5" } else if d == 6 { "6" } else if d == 7 { "7" } else if d == 8 { "8" } else { "9" }
}

/// Appends the decimal digits of `n` to `s`.
pub fn append_decimal(s: &mut String, n: u64)
    ensures
        final(s)@ == old(s)@ + decimal(n as nat),
    decreases n,
{
    if n >= 10 {
        append_decimal(s, n / 10);
    }
    s.append(digit_str(n % 10));
    proof {
        if n >= 10 {
            assert(final(s)@ =~= old(s)@ + decimal(n as nat));
        } else {
            assert(decimal(n as nat) == seq![digit_char(n as nat)]);
        }
    }
}

/// `"<type name> <n>"`.
pub fn numbered_name(t: ZoneType, n: u64) -> (r: String)
    ensures
        r@ == zone_label(t)@ + seq![' '] + decimal(n as nat),
{
    let mut s = String::from_str(t.name());
    proof { reveal_strlit(" "); }
    s.append(" ");
    append_decimal(&mut s, n);
    proof {
        assert(s@ =~= zone_label(t)@ + seq![' '] + decimal(n as nat));
    }
    s
}

pub fn calculate_bedroom_quality(tile_count: usize, furniture_count: usize) -> (r: ZoneQuality)
    ensures
        r == bedroom_quality(tile_count as nat, furniture_count as nat),
{
    if tile_count < 12 {
        return ZoneQuality::Invalid;
    }
    if furniture_count <= 1 {
        ZoneQuality::Basic
    } else if furniture_count <= 3 {
        ZoneQuality::Good
    } else if furniture_count <= 5 {
        ZoneQuality::Excellent
    } else {
        ZoneQuality::Luxury
    }
}

pub fn calculate_lobby_quality(tile_count: usize, furniture_count: usize) -> (r: ZoneQuality)
    ensures
        r == lobby_quality(tile_count as nat, furniture_count as nat),
{
    if tile_count < 15 {
        return ZoneQuality::Invalid;
    }
    if tile_count >= 40 && furniture_count >= 5 {
        ZoneQuality::Luxury
    } else if tile_count >= 30 && furniture_count >= 4 {
        ZoneQuality::Excellent
    } else if tile_count >= 20 && furniture_count >= 2 {
        ZoneQuality::Good
    } else {
        ZoneQuality::Basic
    }
}

impl Zone {
    pub fn new(zone_type: ZoneType, name: String) -> (r: Zone)
        ensures
            r.zone_type == zone_type,
            r.tiles@.len() == 0,
            r.quality == ZoneQuality::Invalid,
            r.name@ == name@,
    {
        Zone { zone_type, tiles: Vec::new(), quality: ZoneQuality::Invalid, name }
    }

    pub fn contains_tile(&self, pos: GridPosition) -> (r: bool)
        ensures
            r == self.tiles@.contains(pos),
    {
        contains_pos(&self.tiles, pos)
    }

    /// Adds a tile the zone does not hold yet.
    pub fn add_tile(&mut self, pos: GridPosition)
        ensures
            final(self).zone_type == old(self).zone_type,
            final(self).quality == old(self).quality,
            final(self).name == old(self).name,
            final(self).tiles@ == if old(self).tiles@.contains(pos) { old(self).tiles@ } else { old(self).tiles@.push(pos) },
    {
        if !contains_pos(&self.tiles, pos) {
            self.tiles.push(pos);
        }
    }

    /// Drops every copy of a tile.
    pub fn remove_tile(&mut self, pos: GridPosition)
        ensures
            final(self).zone_type == old(self).zone_type,
            final(self).quality == old(self).quality,
            final(self).name == old(self).name,
            final(self).tiles@ == old(self).tiles@.filter(|t: GridPosition| t != pos),
    {
        let ghost t0 = self.tiles@;
        let mut kept: Vec<GridPosition> = Vec::new();
        let mut i: usize = 0;
        while i < self.tiles.len()
            invariant
                self.tiles@ == t0,
                0 <= i <= t0.len(),
                kept@ == t0.take(i as int).filter(|t: GridPosition| t != pos),
            decreases t0.len() - i,
        {
            let t = self.tiles[i];
            proof {
                assert(t0.take(i as int + 1) =~= t0.take(i as int).push(t));
                t0.take(i as int).lemma_filter_push(t, |t: GridPosition| t != pos);
            }
            if t != pos {
                kept.push(t);
            }
            i = i + 1;
        }
        proof { assert(t0.take(t0.len() as int) =~= t0); }
        self.tiles = kept;
    }

    pub fn tile_count(&self) -> (r: usize)
        ensures
            r == self.tiles@.len(),
    {
        self.tiles.len()
    }
}

/// Whether a key piece for `z` stands on `tiles`, and how much furniture does.
fn survey(z: ZoneType, objs: &Vec<Structure>, tiles: &Vec<GridPosition>) -> (r: (bool, usize))
    ensures
        r.0 == has_key_piece(z, objs@, tiles@),
        r.1 == furniture_count(objs@, tiles@),
{
    let mut key = false;
    let mut count: usize = 0;
    let mut i: usize = 0;
    while i < objs.len()
        invariant
            0 <= i <= objs@.len(),
            count <= i,
            count == furniture_count(objs@.take(i as int), tiles@),
            key == exists|j: int| 0 <= j < i && key_piece(z, #[trigger] objs@[j]) && tiles@.contains(objs@[j].pos),
        decreases objs@.len() - i,
    {
        let o = objs[i];
        proof {
            assert(objs@.take(i as int + 1).drop_last() =~= objs@.take(i as int));
            assert(objs@.take(i as int + 1).last() == o);
        }
        let here = contains_pos(tiles, o.pos);
        let is_furniture = match o.kind {
            StructureKind::Furniture(_, _) => true,
            _ => false,
        };
        let is_key = match (z, o.kind) {
            (ZoneType::GuestBedroom, StructureKind::Furniture(FurnitureType::Bed(_), _)) => true,
            (ZoneType::Lobby, StructureKind::Furniture(FurnitureType::ReceptionConsole, _)) => true,
            _ => false,
        };
        if is_furniture && here {
            count = count + 1;
        }
        if is_key && here {
            key = true;
        }
        i = i + 1;
    }
    proof {
        assert(objs@.take(i as int) =~= objs@);
    }
    (key, count)
}

/// The first zone of type `z` that shares a tile with `tiles`.
fn find_overlapping_zone(z: ZoneType, zones: &Vec<Zone>, tiles: &Vec<GridPosition>) -> (r: Option<usize>)
    ensures
        r matches Some(k) ==> k < zones@.len() && zones@[k as int].zone_type == z && overlaps(zones@[k as int].tiles@, tiles@)
            && forall|j: int| 0 <= j < k ==> !#[trigger] overlapping(zones@, z, tiles@, j),
        r.is_none() ==> forall|k: int| 0 <= k < zones@.len() && (#[trigger] zones@[k]).zone_type == z
            ==> !overlaps(zones@[k].tiles@, tiles@),
{
    let mut k: usize = 0;
    while k < zones.len()
        invariant
            0 <= k <= zones@.len(),
            forall|j: int| 0 <= j < k && (#[trigger] zones@[j]).zone_type == z ==> !overlaps(zones@[j].tiles@, tiles@),
        decreases zones@.len() - k,
    {
        if zones[k].zone_type == z {
            let zt = &zones[k].tiles;
            let mut i: usize = 0;
            while i < zt.len()
                invariant
                    0 <= i <= zt@.len(),
                    0 <= k < zones@.len(),
                    zones@[k as int].zone_type == z,
                    zt@ == zones@[k as int].tiles@,
                    forall|j: int| 0 <= j < k && (#[trigger] zones@[j]).zone_type == z ==> !overlaps(zones@[j].tiles@, tiles@),
                    forall|j: int| 0 <= j < i ==> !tiles@.contains(#[trigger] zt@[j]),
                decreases zt@.len() - i,
            {
                if contains_pos(tiles, zt[i]) {
                    proof {
                        let t = zt@[i as int];
                        assert(zt@ == zones@[k as int].tiles@);
                        assert(zones@[k as int].tiles@.contains(t));
                        assert(tiles@.contains(t));
                        assert(overlaps(zones@[k as int].tiles@, tiles@));
                    }
                    return Some(k);
                }
                i = i + 1;
            }
            proof {
                assert forall|t: GridPosition| zt@.contains(t) implies !#[trigger] tiles@.contains(t) by {
                    let j = choose|j: int| 0 <= j < zt@.len() && zt@[j] == t;
                }
            }
        }
        k = k + 1;
    }
    None
}

/// Zone `k` of `zs` is of type `z` and shares a tile with `tiles`.
pub open spec fn overlapping(zs: Seq<Zone>, z: ZoneType, tiles: Seq<GridPosition>, k: int) -> bool {
    0 <= k < zs.len() && zs[k].zone_type == z && overlaps(zs[k].tiles@, tiles)
}

/// One room's share of a zone pass, for the room of `tiles` at index `i`.
/// A room that does not qualify changes nothing. Otherwise the first zone of
/// type `z` overlapping it takes its tiles and quality in place, or, when
/// there is none, exactly one new zone is added for it.
pub open spec fn zone_step(pre: Seq<Zone>, post: Seq<Zone>, z: ZoneType, objs: Seq<Structure>, tiles: Seq<GridPosition>, i: int) -> bool {
    let q = quality_for(z, tiles.len(), furniture_count(objs, tiles));
    if !qualifies(z, objs, tiles) {
        post == pre
    } else if exists|k: int| #[trigger] overlapping(pre, z, tiles, k) {
        exists|k: int| {
            &&& #[trigger] overlapping(pre, z, tiles, k)
            &&& forall|j: int| 0 <= j < k ==> !#[trigger] overlapping(pre, z, tiles, j)
            &&& post.len() == pre.len()
            &&& post[k].zone_type == z
            &&& post[k].tiles@ == tiles
            &&& post[k].quality == q
            &&& post[k].name == pre[k].name
            &&& forall|j: int| 0 <= j < pre.len() && j != k ==> #[trigger] post[j] == pre[j]
        }
    } else {
        &&& post.len() == pre.len() + 1
        &&& forall|j: int| 0 <= j < pre.len() ==> #[trigger] post[j] == pre[j]
        &&& post[pre.len() as int].zone_type == z
        &&& post[pre.len() as int].tiles@ == tiles
        &&& post[pre.len() as int].quality == q
        &&& post[pre.len() as int].name@ == zone_label(z)@ + seq![' '] + decimal(i as nat)
    }
}

/// Zone `zn` is of type `z` and has exactly the tiles of a room of `rooms` holding the key piece of `z`.
pub open spec fn from_room(z: ZoneType, rooms: Seq<Room>, objs: Seq<Structure>, zn: Zone) -> bool {
    zn.zone_type == z && exists|i: int| 0 <= i < rooms.len() && qualifies(z, objs, (#[trigger] rooms[i]).tiles@)
        && zn.tiles@ == rooms[i].tiles@
}

/// Gives each room that holds the key piece of `z` and has the tiles `z`
/// needs a zone of type `z`: the first zone of that type sharing a tile with
/// the room takes the room's tiles and quality, or else a new zone named
/// after the room's index is added.
/// Afterwards each such room has a zone of exactly its tiles and quality;
/// zones of other types are untouched.
pub fn assign_zone_type(z: ZoneType, rooms: &Vec<Room>, objs: &Vec<Structure>, zones: &mut Vec<Zone>)
    requires
        forall|a: int, b: int| 0 <= a < rooms@.len() && 0 <= b < rooms@.len() && a != b ==>
            disjoint((#[trigger] rooms@[a]).tiles@, (#[trigger] rooms@[b]).tiles@),
    ensures
        exists|ss: Seq<Seq<Zone>>| #![trigger ss[0]] {
            &&& ss.len() == rooms@.len() + 1
            &&& ss[0] == old(zones)@
            &&& ss[rooms@.len() as int] == final(zones)@
            &&& forall|r: int| 0 <= r < rooms@.len() ==> #[trigger] zone_step(ss[r], ss[r + 1], z, objs@, rooms@[r].tiles@, r)
        },
        final(zones)@.len() >= old(zones)@.len(),
        forall|k: int| 0 <= k < old(zones)@.len() && old(zones)@[k].zone_type != z ==>
            #[trigger] final(zones)@[k] == old(zones)@[k],
        forall|i: int| 0 <= i < rooms@.len() && qualifies(z, objs@, (#[trigger] rooms@[i]).tiles@) ==>
            exists|k: int| 0 <= k < final(zones)@.len() && (#[trigger] final(zones)@[k]).zone_type == z
                && final(zones)@[k].tiles@ == rooms@[i].tiles@
                && final(zones)@[k].quality == quality_for(z, rooms@[i].tiles@.len(), furniture_count(objs@, rooms@[i].tiles@)),
        forall|k: int| 0 <= k < final(zones)@.len() && (k >= old(zones)@.len() || final(zones)@[k] != old(zones)@[k])
            ==> from_room(z, rooms@, objs@, #[trigger] final(zones)@[k]),
{
    let ghost mut ss: Seq<Seq<Zone>> = seq![zones@];
    let mut i: usize = 0;
    while i < rooms.len()
        invariant
            ss.len() == i + 1,
            ss[0] == old(zones)@,
            ss[i as int] == zones@,
            forall|r: int| 0 <= r < i ==> #[trigger] zone_step(ss[r], ss[r + 1], z, objs@, rooms@[r].tiles@, r),
            0 <= i <= rooms@.len(),
            forall|a: int, b: int| 0 <= a < rooms@.len() && 0 <= b < rooms@.len() && a != b ==>
                disjoint((#[trigger] rooms@[a]).tiles@, (#[trigger] rooms@[b]).tiles@),
            zones@.len() >= old(zones)@.len(),
            forall|k: int| 0 <= k < old(zones)@.len() && old(zones)@[k].zone_type != z ==>
                #[trigger] zones@[k] == old(zones)@[k],
            forall|r: int| 0 <= r < i && qualifies(z, objs@, (#[trigger] rooms@[r]).tiles@) ==>
                exists|k: int| 0 <= k < zones@.len() && (#[trigger] zones@[k]).zone_type == z
                    && zones@[k].tiles@ == rooms@[r].tiles@
                    && zones@[k].quality == quality_for(z, rooms@[r].tiles@.len(), furniture_count(objs@, rooms@[r].tiles@)),
            forall|k: int| 0 <= k < zones@.len() && (k >= old(zones)@.len() || zones@[k] != old(zones)@[k])
                ==> from_room(z, rooms@, objs@, #[trigger] zones@[k]),
        decreases rooms@.len() - i,
    {
        let ghost pre = zones@;
        let room = &rooms[i];
        let (key, count) = survey(z, objs, &room.tiles);
        let min_tiles = z.requirements().min_tiles;
        if key && room.tiles.len() >= min_tiles {
            let quality = match z {
                ZoneType::Lobby => calculate_lobby_quality(room.tiles.len(), count),
                _ => calculate_bedroom_quality(room.tiles.len(), count),
            };
            let ghost before = zones@;
            match find_overlapping_zone(z, zones, &room.tiles) {
                Some(k) => {
                    let tiles = copy_tiles(&room.tiles);
                    zones[k].tiles = tiles;
                    zones[k].quality = quality;
                    proof {
                        assert(overlapping(pre, z, room.tiles@, k as int));
                        assert forall|j: int| 0 <= j < pre.len() && j != k implies #[trigger] zones@[j] == pre[j] by {}
                        assert(zone_step(pre, zones@, z, objs@, rooms@[i as int].tiles@, i as int));
                        assert forall|r: int| 0 <= r < i + 1 && qualifies(z, objs@, (#[trigger] rooms@[r]).tiles@) implies
                            exists|j: int| 0 <= j < zones@.len() && (#[trigger] zones@[j]).zone_type == z
                                && zones@[j].tiles@ == rooms@[r].tiles@
                                && zones@[j].quality == quality_for(z, rooms@[r].tiles@.len(), furniture_count(objs@, rooms@[r].tiles@)) by {
                            if r == i {
                                assert(zones@[k as int].zone_type == z);
                            } else {
                                let j = choose|j: int| 0 <= j < before.len() && (#[trigger] before[j]).zone_type == z
                                    && before[j].tiles@ == rooms@[r].tiles@
                                    && before[j].quality == quality_for(z, rooms@[r].tiles@.len(), furniture_count(objs@, rooms@[r].tiles@));
                                if j == k {
                                    assert(disjoint(rooms@[r].tiles@, rooms@[i as int].tiles@));
                                    let t = choose|t: GridPosition| before[j].tiles@.contains(t) && #[trigger] rooms@[i as int].tiles@.contains(t);
                                    assert(false);
                                }
                                assert(zones@[j] == before[j]);
                            }
                        }
                        assert forall|j: int| 0 <= j < old(zones)@.len() && old(zones)@[j].zone_type != z implies
                            #[trigger] zones@[j] == old(zones)@[j] by {
                            assert(before[j] == old(zones)@[j]);
                        }
                        assert forall|j: int| 0 <= j < zones@.len() && (j >= old(zones)@.len() || zones@[j] != old(zones)@[j])
                            implies from_room(z, rooms@, objs@, #[trigger] zones@[j]) by {
                            if j == k {
                                assert(qualifies(z, objs@, rooms@[i as int].tiles@));
                                assert(zones@[j].tiles@ == rooms@[i as int].tiles@);
                            } else {
                                assert(zones@[j] == before[j]);
                            }
                        }
                    }
                },
                None => {
                    let tiles = copy_tiles(&room.tiles);
                    let name = numbered_name(z, i as u64);
                    zones.push(Zone { zone_type: z, tiles, quality, name });
                    proof {
                        assert forall|k: int| !#[trigger] overlapping(pre, z, room.tiles@, k) by {
                            if 0 <= k < pre.len() && pre[k].zone_type == z {
                                assert(!overlaps(pre[k].tiles@, room.tiles@));
                            }
                        }
                        assert(forall|j: int| 0 <= j < pre.len() ==> #[trigger] zones@[j] == pre[j]);
                        assert(zone_step(pre, zones@, z, objs@, rooms@[i as int].tiles@, i as int));
                        assert forall|r: int| 0 <= r < i + 1 && qualifies(z, objs@, (#[trigger] rooms@[r]).tiles@) implies
                            exists|j: int| 0 <= j < zones@.len() && (#[trigger] zones@[j]).zone_type == z
                                && zones@[j].tiles@ == rooms@[r].tiles@
                                && zones@[j].quality == quality_for(z, rooms@[r].tiles@.len(), furniture_count(objs@, rooms@[r].tiles@)) by {
                            if r == i {
                                assert(zones@[before.len() as int].zone_type == z);
                            } else {
                                let j = choose|j: int| 0 <= j < before.len() && (#[trigger] before[j]).zone_type == z
                                    && before[j].tiles@ == rooms@[r].tiles@
                                    && before[j].quality == quality_for(z, rooms@[r].tiles@.len(), furniture_count(objs@, rooms@[r].tiles@));
                                assert(zones@[j] == before[j]);
                            }
                        }
                        assert forall|j: int| 0 <= j < old(zones)@.len() && old(zones)@[j].zone_type != z implies
                            #[trigger] zones@[j] == old(zones)@[j] by {
                            assert(before[j] == old(zones)@[j]);
                        }
                        assert forall|j: int| 0 <= j < zones@.len() && (j >= old(zones)@.len() || zones@[j] != old(zones)@[j])
                            implies from_room(z, rooms@, objs@, #[trigger] zones@[j]) by {
                            if j == before.len() {
                                assert(qualifies(z, objs@, rooms@[i as int].tiles@));
                                assert(zones@[j].tiles@ == rooms@[i as int].tiles@);
                            } else {
                                assert(zones@[j] == before[j]);
                            }
                        }
                    }
                },
            }
        }
        proof {
            let prev = ss;
            ss = ss.push(zones@);
            assert forall|r: int| 0 <= r < i + 1 implies #[trigger] zone_step(ss[r], ss[r + 1], z, objs@, rooms@[r].tiles@, r) by {
                if r < i {
                    assert(ss[r] == prev[r] && ss[r + 1] == prev[r + 1]);
                }
            }
        }
        i = i + 1;
    }
}

/// Guest bedrooms for the rooms holding a bed.
pub fn auto_assign_bedroom_zones(rooms: &Vec<Room>, objs: &Vec<Structure>, zones: &mut Vec<Zone>)
    requires
        forall|a: int, b: int| 0 <= a < rooms@.len() && 0 <= b < rooms@.len() && a != b ==>
            disjoint((#[trigger] rooms@[a]).tiles@, (#[trigger] rooms@[b]).tiles@),
    ensures
        exists|ss: Seq<Seq<Zone>>| #![trigger ss[0]] {
            &&& ss.len() == rooms@.len() + 1
            &&& ss[0] == old(zones)@
            &&& ss[rooms@.len() as int] == final(zones)@
            &&& forall|r: int| 0 <= r < rooms@.len() ==> #[trigger] zone_step(ss[r], ss[r + 1], ZoneType::GuestBedroom, objs@, rooms@[r].tiles@, r)
        },
        final(zones)@.len() >= old(zones)@.len(),
        forall|k: int| 0 <= k < old(zones)@.len() && old(zones)@[k].zone_type != ZoneType::GuestBedroom ==>
            #[trigger] final(zones)@[k] == old(zones)@[k],
        forall|i: int| 0 <= i < rooms@.len() && qualifies(ZoneType::GuestBedroom, objs@, (#[trigger] rooms@[i]).tiles@) ==>
            exists|k: int| 0 <= k < final(zones)@.len() && (#[trigger] final(zones)@[k]).zone_type == ZoneType::GuestBedroom
                && final(zones)@[k].tiles@ == rooms@[i].tiles@
                && final(zones)@[k].quality == bedroom_quality(rooms@[i].tiles@.len(), furniture_count(objs@, rooms@[i].tiles@)),
        forall|k: int| 0 <= k < final(zones)@.len() && (k >= old(zones)@.len() || final(zones)@[k] != old(zones)@[k])
            ==> from_room(ZoneType::GuestBedroom, rooms@, objs@, #[trigger] final(zones)@[k]),
{
    assign_zone_type(ZoneType::GuestBedroom, rooms, objs, zones);
    proof {
        assert forall|i: int| 0 <= i < rooms@.len() && qualifies(ZoneType::GuestBedroom, objs@, (#[trigger] rooms@[i]).tiles@) implies
            exists|k: int| 0 <= k < zones@.len() && (#[trigger] zones@[k]).zone_type == ZoneType::GuestBedroom
                && zones@[k].tiles@ == rooms@[i].tiles@
                && zones@[k].quality == bedroom_quality(rooms@[i].tiles@.len(), furniture_count(objs@, rooms@[i].tiles@)) by {
            let k = choose|k: int| 0 <= k < zones@.len() && (#[trigger] zones@[k]).zone_type == ZoneType::GuestBedroom
                && zones@[k].tiles@ == rooms@[i].tiles@
                && zones@[k].quality == quality_for(ZoneType::GuestBedroom, rooms@[i].tiles@.len(), furniture_count(objs@, rooms@[i].tiles@));
            assert(zones@[k].zone_type == ZoneType::GuestBedroom);
        }
    }
}

/// Lobbies for the rooms holding a reception console.
pub fn auto_assign_lobby_zones(rooms: &Vec<Room>, objs: &Vec<Structure>, zones: &mut Vec<Zone>)
    requires
        forall|a: int, b: int| 0 <= a < rooms@.len() && 0 <= b < rooms@.len() && a != b ==>
            disjoint((#[trigger] rooms@[a]).tiles@, (#[trigger] rooms@[b]).tiles@),
    ensures
        exists|ss: Seq<Seq<Zone>>| #![trigger ss[0]] {
            &&& ss.len() == rooms@.len() + 1
            &&& ss[0] == old(zones)@
            &&& ss[rooms@.len() as int] == final(zones)@
            &&& forall|r: int| 0 <= r < rooms@.len() ==> #[trigger] zone_step(ss[r], ss[r + 1], ZoneType::Lobby, objs@, rooms@[r].tiles@, r)
        },
        final(zones)@.len() >= old(zones)@.len(),
        forall|k: int| 0 <= k < old(zones)@.len() && old(zones)@[k].zone_type != ZoneType::Lobby ==>
            #[trigger] final(zones)@[k] == old(zones)@[k],
        forall|i: int| 0 <= i < rooms@.len() && qualifies(ZoneType::Lobby, objs@, (#[trigger] rooms@[i]).tiles@) ==>
            exists|k: int| 0 <= k < final(zones)@.len() && (#[trigger] final(zones)@[k]).zone_type == ZoneType::Lobby
                && final(zones)@[k].tiles@ == rooms@[i].tiles@
                && final(zones)@[k].quality == lobby_quality(rooms@[i].tiles@.len(), furniture_count(objs@, rooms@[i].tiles@)),
        forall|k: int| 0 <= k < final(zones)@.len() && (k >= old(zones)@.len() || final(zones)@[k] != old(zones)@[k])
            ==> from_room(ZoneType::Lobby, rooms@, objs@, #[trigger] final(zones)@[k]),
{
    assign_zone_type(ZoneType::Lobby, rooms, objs, zones);
    proof {
        assert forall|i: int| 0 <= i < rooms@.len() && qualifies(ZoneType::Lobby, objs@, (#[trigger] rooms@[i]).tiles@) implies
            exists|k: int| 0 <= k < zones@.len() && (#[trigger] zones@[k]).zone_type == ZoneType::Lobby
                && zones@[k].tiles@ == rooms@[i].tiles@
                && zones@[k].quality == lobby_quality(rooms@[i].tiles@.len(), furniture_count(objs@, rooms@[i].tiles@)) by {
            let k = choose|k: int| 0 <= k < zones@.len() && (#[trigger] zones@[k]).zone_type == ZoneType::Lobby
                && zones@[k].tiles@ == rooms@[i].tiles@
                && zones@[k].quality == quality_for(ZoneType::Lobby, rooms@[i].tiles@.len(), furniture_count(objs@, rooms@[i].tiles@));
            assert(zones@[k].zone_type == ZoneType::Lobby);
        }
    }
}

} // verus!
