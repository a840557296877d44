use resort_tycoon::building::FloorType;
use resort_tycoon::economy::Money;
use resort_tycoon::furniture::{BedType, FurnitureOrientation, FurnitureType};
use resort_tycoon::grid::{GridPosition, GridSettings};
use resort_tycoon::level::{Level, Structure, StructureKind};
use resort_tycoon::rooms::{detect_rooms, find_enclosed_rooms, Room};
use resort_tycoon::snapshot::{
    apply_save_data, collect_save_data, default_room_layout, sort_save_data, FloorData, GridPoint, SaveData,
};
use resort_tycoon::zones::{
    auto_assign_bedroom_zones, auto_assign_lobby_zones, calculate_bedroom_quality, calculate_lobby_quality,
    numbered_name, Zone, ZoneQuality, ZoneType,
};

fn gp(x: i32, y: i32) -> GridPosition {
    GridPosition::new(x, y)
}

fn small_level() -> Level {
    let settings = GridSettings { tile_size: 16, width: 8, height: 8, show_grid: true };
    Level::new(settings, Money { amount: 100000 })
}

fn ring_around_square(l: &mut Level) {
    for x in 1..=4 {
        for y in 1..=4 {
            if x == 1 || x == 4 || y == 1 || y == 4 {
                l.map.place_wall(gp(x, y), 0);
            }
        }
    }
}

#[test]
fn enclosed_square_is_one_room_of_four() {
    let mut l = small_level();
    ring_around_square(&mut l);
    let rooms = find_enclosed_rooms(&l.map, &l.settings);
    assert_eq!(rooms.len(), 1);
    assert_eq!(rooms[0].tile_count(), 4);
    for p in [gp(2, 2), gp(2, 3), gp(3, 2), gp(3, 3)] {
        assert!(rooms[0].contains_tile(p));
    }
}

#[test]
fn opening_the_wall_removes_the_room() {
    let mut l = small_level();
    ring_around_square(&mut l);
    l.map.clear_wall(gp(4, 2));
    let rooms = find_enclosed_rooms(&l.map, &l.settings);
    assert_eq!(rooms.len(), 0);
}

#[test]
fn a_door_in_the_wall_keeps_the_room() {
    let mut l = small_level();
    ring_around_square(&mut l);
    l.map.place_door_tile(gp(4, 2), 9);
    let rooms = find_enclosed_rooms(&l.map, &l.settings);
    assert_eq!(rooms.len(), 1);
    assert_eq!(rooms[0].tile_count(), 4);
}

#[test]
fn regions_under_four_tiles_are_not_rooms() {
    let mut l = small_level();
    for x in 1..=3 {
        for y in 1..=4 {
            if x == 1 || x == 3 || y == 1 || y == 4 {
                l.map.place_wall(gp(x, y), 0);
            }
        }
    }
    assert_eq!(find_enclosed_rooms(&l.map, &l.settings).len(), 0);
}

#[test]
fn rooms_are_redetected_only_after_wall_changes() {
    let mut l = small_level();
    ring_around_square(&mut l);
    let mut rooms: Vec<Room> = Vec::new();
    detect_rooms(&l.map, &l.settings, false, &mut rooms);
    assert!(rooms.is_empty());
    detect_rooms(&l.map, &l.settings, true, &mut rooms);
    assert_eq!(rooms.len(), 1);
}

#[test]
fn bedroom_quality_table() {
    assert_eq!(calculate_bedroom_quality(11, 9), ZoneQuality::Invalid);
    assert_eq!(calculate_bedroom_quality(12, 0), ZoneQuality::Basic);
    assert_eq!(calculate_bedroom_quality(12, 1), ZoneQuality::Basic);
    assert_eq!(calculate_bedroom_quality(12, 2), ZoneQuality::Good);
    assert_eq!(calculate_bedroom_quality(12, 3), ZoneQuality::Good);
    assert_eq!(calculate_bedroom_quality(12, 4), ZoneQuality::Excellent);
    assert_eq!(calculate_bedroom_quality(12, 5), ZoneQuality::Excellent);
    assert_eq!(calculate_bedroom_quality(12, 6), ZoneQuality::Luxury);
}

#[test]
fn lobby_quality_table() {
    assert_eq!(calculate_lobby_quality(14, 10), ZoneQuality::Invalid);
    assert_eq!(calculate_lobby_quality(15, 0), ZoneQuality::Basic);
    assert_eq!(calculate_lobby_quality(20, 2), ZoneQuality::Good);
    assert_eq!(calculate_lobby_quality(29, 9), ZoneQuality::Good);
    assert_eq!(calculate_lobby_quality(30, 4), ZoneQuality::Excellent);
    assert_eq!(calculate_lobby_quality(40, 4), ZoneQuality::Excellent);
    assert_eq!(calculate_lobby_quality(40, 5), ZoneQuality::Luxury);
    assert_eq!(calculate_lobby_quality(19, 5), ZoneQuality::Basic);
}

#[test]
fn zone_types_and_qualities_describe_themselves() {
    assert_eq!(ZoneType::GuestBedroom.requirements().min_tiles, 12);
    assert_eq!(ZoneType::Lobby.requirements().min_tiles, 15);
    assert_eq!(ZoneType::Culinary.requirements().required_furniture.len(), 0);
    assert_eq!(ZoneQuality::Excellent.stars(), 3);
    assert_eq!(ZoneQuality::Invalid.name(), "Invalid");
    assert_eq!(numbered_name(ZoneType::GuestBedroom, 12), "Guest Bedroom 12");
    assert_eq!(numbered_name(ZoneType::Lobby, 0), "Lobby 0");
}

fn twelve_tile_room() -> Room {
    let mut tiles = Vec::new();
    for x in 10..14 {
        for y in 10..13 {
            tiles.push(gp(x, y));
        }
    }
    Room::new(tiles)
}

fn piece(id: u64, t: FurnitureType, x: i32, y: i32) -> Structure {
    Structure { id, kind: StructureKind::Furniture(t, FurnitureOrientation::East), pos: gp(x, y) }
}

#[test]
fn bedroom_quality_rises_with_furniture() {
    let rooms = vec![twelve_tile_room()];
    let mut objs = vec![piece(1, FurnitureType::Bed(BedType::Single), 10, 10)];
    let mut zones: Vec<Zone> = Vec::new();
    auto_assign_bedroom_zones(&rooms, &objs, &mut zones);
    assert_eq!(zones.len(), 1);
    assert_eq!(zones[0].zone_type, ZoneType::GuestBedroom);
    assert_eq!(zones[0].quality, ZoneQuality::Basic);
    assert_eq!(zones[0].tile_count(), 12);
    assert_eq!(zones[0].name, "Guest Bedroom 0");
    objs.push(piece(2, FurnitureType::Nightstand, 12, 10));
    objs.push(piece(3, FurnitureType::Dresser, 13, 11));
    objs.push(piece(4, FurnitureType::Chair, 11, 12));
    auto_assign_bedroom_zones(&rooms, &objs, &mut zones);
    assert_eq!(zones.len(), 1);
    assert_eq!(zones[0].quality, ZoneQuality::Excellent);
}

#[test]
fn rooms_without_a_bed_get_no_bedroom() {
    let rooms = vec![twelve_tile_room()];
    let objs = vec![piece(1, FurnitureType::Bed(BedType::Double), 30, 30), piece(2, FurnitureType::Chair, 11, 11)];
    let mut zones: Vec<Zone> = Vec::new();
    auto_assign_bedroom_zones(&rooms, &objs, &mut zones);
    assert!(zones.is_empty());
}

#[test]
fn consoles_make_lobbies() {
    let mut tiles = Vec::new();
    for x in 0..5 {
        for y in 0..4 {
            tiles.push(gp(x + 20, y + 20));
        }
    }
    let rooms = vec![Room::new(tiles)];
    let objs = vec![piece(1, FurnitureType::Desk, 20, 20), piece(2, FurnitureType::ReceptionConsole, 21, 21)];
    let mut zones: Vec<Zone> = Vec::new();
    auto_assign_lobby_zones(&rooms, &objs, &mut zones);
    assert_eq!(zones.len(), 1);
    assert_eq!(zones[0].zone_type, ZoneType::Lobby);
    assert_eq!(zones[0].quality, ZoneQuality::Good);
    auto_assign_bedroom_zones(&rooms, &objs, &mut zones);
    assert_eq!(zones.len(), 1);
}

#[test]
fn zone_tiles_can_be_added_and_removed() {
    let mut z = Zone::new(ZoneType::Relaxation, String::from("Spa"));
    z.add_tile(gp(1, 1));
    z.add_tile(gp(1, 1));
    z.add_tile(gp(2, 1));
    assert_eq!(z.tile_count(), 2);
    z.remove_tile(gp(1, 1));
    assert!(!z.contains_tile(gp(1, 1)));
    assert!(z.contains_tile(gp(2, 1)));
}

#[test]
fn default_layout_is_a_room_with_a_door() {
    let data = default_room_layout();
    assert_eq!(data.walls.len(), 14);
    assert_eq!(data.floors.len(), 9);
    assert_eq!(data.doors.len(), 1);
    assert_eq!(data.walls[0], GridPoint { x: 48, y: 48 });
    let mut l = Level::new(GridSettings::default(), Money::default());
    apply_save_data(&mut l, &data);
    let rooms = find_enclosed_rooms(&l.map, &l.settings);
    assert_eq!(rooms.len(), 1);
    assert_eq!(rooms[0].tile_count(), 9);
    let t = l.map.tile(GridPosition::new(49, 48));
    assert!(t.door.is_some() && !t.occupied);
}

#[test]
fn snapshot_round_trip_keeps_what_stands() {
    let data = default_room_layout();
    let mut l = Level::new(GridSettings::default(), Money::default());
    apply_save_data(&mut l, &data);
    let mut again = collect_save_data(&l);
    sort_save_data(&mut again);
    assert_eq!(again.walls, data.walls);
    assert_eq!(again.floors, data.floors);
    assert_eq!(again.doors, data.doors);
    assert!(again.furniture.is_empty());
}

#[test]
fn sorting_orders_by_x_then_y() {
    let mut data = SaveData::default();
    data.walls = vec![GridPoint { x: 2, y: 1 }, GridPoint { x: 1, y: 5 }, GridPoint { x: 1, y: 2 }];
    data.floors = vec![
        FloorData { position: GridPoint { x: 3, y: 0 }, floor_type: FloorType::Wood },
        FloorData { position: GridPoint { x: 0, y: 9 }, floor_type: FloorType::Stone },
    ];
    sort_save_data(&mut data);
    assert_eq!(data.walls, vec![GridPoint { x: 1, y: 2 }, GridPoint { x: 1, y: 5 }, GridPoint { x: 2, y: 1 }]);
    assert_eq!(data.floors[0].floor_type, FloorType::Stone);
}

#[test]
fn small_bed_rooms_get_no_zone() {
    let mut tiles = Vec::new();
    for x in 10..14 {
        for y in 10..12 {
            tiles.push(gp(x, y));
        }
    }
    let rooms = vec![Room::new(tiles)];
    let objs = vec![piece(1, FurnitureType::Bed(BedType::Single), 10, 10)];
    let mut zones: Vec<Zone> = Vec::new();
    auto_assign_bedroom_zones(&rooms, &objs, &mut zones);
    assert!(zones.is_empty());
}

#[test]
fn overlapping_zone_is_updated_in_place() {
    let rooms = vec![twelve_tile_room()];
    let objs = vec![
        piece(1, FurnitureType::Bed(BedType::Single), 10, 10),
        piece(2, FurnitureType::Nightstand, 12, 10),
        piece(3, FurnitureType::Dresser, 13, 11),
        piece(4, FurnitureType::Chair, 11, 12),
    ];
    let mut old = Zone::new(ZoneType::GuestBedroom, String::from("Suite"));
    old.add_tile(gp(10, 10));
    old.add_tile(gp(40, 40));
    old.quality = ZoneQuality::Basic;
    let mut zones = vec![old];
    auto_assign_bedroom_zones(&rooms, &objs, &mut zones);
    assert_eq!(zones.len(), 1);
    assert_eq!(zones[0].name, "Suite");
    assert_eq!(zones[0].quality, ZoneQuality::Excellent);
    assert_eq!(zones[0].tile_count(), 12);
}

#[test]
fn sorting_keeps_equal_positions_in_order() {
    let mut data = SaveData::default();
    data.floors = vec![
        FloorData { position: GridPoint { x: 2, y: 2 }, floor_type: FloorType::Wood },
        FloorData { position: GridPoint { x: 1, y: 1 }, floor_type: FloorType::Stone },
        FloorData { position: GridPoint { x: 2, y: 2 }, floor_type: FloorType::Carpet },
    ];
    sort_save_data(&mut data);
    assert_eq!(data.floors[0].floor_type, FloorType::Stone);
    assert_eq!(data.floors[1].floor_type, FloorType::Wood);
    assert_eq!(data.floors[2].floor_type, FloorType::Carpet);
}
