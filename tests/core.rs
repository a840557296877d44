use resort_tycoon::building::{DoorOrientation, FloorType};
use resort_tycoon::controls::{DragState, SpeedOption, TimeSpeed, UiInputBlocker};
use resort_tycoon::economy::{BuildingType, Money};
use resort_tycoon::furniture::{BedType, FurnitureOrientation, FurnitureType};
use resort_tycoon::grid::{distance_squared, grid_to_world, world_to_grid, GridPosition, GridSettings, WorldPos};
use resort_tycoon::jobs::{Blueprint, BlueprintType, DeconstructionMarker, CONSTRUCTION_SPEED};
use resort_tycoon::level::{JobRef, Level, StructureKind};
use resort_tycoon::work::{WorkAssignments, WorkPriority, WorkType};

fn gp(x: i32, y: i32) -> GridPosition {
    GridPosition::new(x, y)
}

fn level() -> Level {
    Level::new(GridSettings::default(), Money::default())
}

fn centre(l: &Level, p: GridPosition) -> WorldPos {
    grid_to_world(p, l.settings.tile_size, l.settings.width, l.settings.height)
}

#[test]
fn grid_and_world_coordinates_convert_both_ways() {
    let w = grid_to_world(gp(0, 0), 16, 100, 100);
    assert_eq!((w.x, w.y), (-792, -792));
    let w = grid_to_world(gp(50, 50), 16, 100, 100);
    assert_eq!((w.x, w.y), (8, 8));
    assert_eq!(world_to_grid(WorldPos { x: 8, y: 8 }, 16, 100, 100), Some(gp(50, 50)));
    assert_eq!(world_to_grid(WorldPos { x: 0, y: -1 }, 16, 100, 100), Some(gp(50, 49)));
    assert_eq!(world_to_grid(WorldPos { x: -800, y: 0 }, 16, 100, 100), Some(gp(0, 50)));
    assert_eq!(world_to_grid(WorldPos { x: -801, y: 0 }, 16, 100, 100), None);
    assert_eq!(world_to_grid(WorldPos { x: 800, y: 0 }, 16, 100, 100), None);
}

#[test]
fn squared_distance_is_exact() {
    assert_eq!(distance_squared(WorldPos { x: 0, y: 0 }, WorldPos { x: 3, y: 4 }), 25);
    assert_eq!(
        distance_squared(WorldPos { x: i32::MIN, y: 0 }, WorldPos { x: i32::MAX, y: 0 }),
        (u32::MAX as u128) * (u32::MAX as u128)
    );
}

#[test]
fn furniture_footprints_follow_orientation() {
    let bed = FurnitureType::Bed(BedType::Single);
    assert_eq!(bed.oriented_dimensions(FurnitureOrientation::East), (2, 3));
    assert_eq!(bed.oriented_dimensions(FurnitureOrientation::South), (3, 2));
    let tiles = bed.tiles_occupied(gp(10, 10), FurnitureOrientation::North);
    assert_eq!(tiles.len(), 6);
    assert!(tiles.contains(&gp(12, 11)));
    assert!(!tiles.contains(&gp(11, 12)));
    assert_eq!(FurnitureOrientation::North.next(), FurnitureOrientation::East);
}

#[test]
fn priority_steps_move_towards_either_end() {
    let mut p = WorkPriority(0);
    p.decrease_towards_highest();
    assert_eq!(p.0, 1);
    p.decrease_towards_highest();
    assert_eq!(p.0, 1);
    let mut q = WorkPriority(3);
    q.decrease_towards_highest();
    assert_eq!(q.0, 2);
    let mut r = WorkPriority(4);
    r.increase_towards_disabled();
    assert_eq!(r.0, 0);
    r.increase_towards_disabled();
    assert_eq!(r.0, 0);
    let mut s = WorkPriority(2);
    s.increase_towards_disabled();
    assert_eq!(s.0, 3);
    assert_eq!(WorkPriority(0).display(), "-");
    assert_eq!(WorkPriority(3).display(), "3");
}

#[test]
fn default_priorities_enable_construction_only() {
    let w = WorkAssignments::default();
    assert_eq!(w.get_priority(WorkType::Construction).0, 3);
    assert!(!w.can_do_work(WorkType::Reception));
    assert!(!w.can_do_work(WorkType::Cleaning));
}

#[test]
fn construction_is_preferred_over_cleaning() {
    let mut w = WorkAssignments::default();
    w.set_priority(WorkType::Construction, WorkPriority(1));
    w.set_priority(WorkType::Cleaning, WorkPriority(3));
    assert_eq!(
        w.get_highest_priority_work(&[WorkType::Cleaning, WorkType::Construction]),
        Some(WorkType::Construction)
    );
    assert_eq!(
        w.get_highest_priority_work(&[WorkType::Construction, WorkType::Cleaning]),
        Some(WorkType::Construction)
    );
    assert_eq!(w.get_highest_priority_work(&[WorkType::Cooking]), None);
    assert_eq!(w.get_highest_priority_work(&[]), None);
}

#[test]
fn equal_priorities_pick_the_first_candidate() {
    let mut w = WorkAssignments::default();
    w.set_priority(WorkType::Construction, WorkPriority(2));
    w.set_priority(WorkType::Cooking, WorkPriority(2));
    assert_eq!(
        w.get_highest_priority_work(&[WorkType::Cooking, WorkType::Construction]),
        Some(WorkType::Cooking)
    );
}

#[test]
fn blueprint_work_depends_on_type() {
    assert_eq!(Blueprint::new(BlueprintType::Wall).work_required, 100_000);
    assert_eq!(Blueprint::new(BlueprintType::Door(DoorOrientation::Vertical)).work_required, 150_000);
    assert_eq!(Blueprint::new(BlueprintType::Window).work_required, 120_000);
    assert_eq!(Blueprint::new(BlueprintType::Floor(FloorType::Stone)).work_required, 50_000);
    assert_eq!(DeconstructionMarker::new(7).work_required, 100_000);
}

#[test]
fn two_seconds_of_construction_finish_a_wall_exactly() {
    let mut b = Blueprint::new(BlueprintType::Wall);
    for _ in 0..4 {
        b.add_work(CONSTRUCTION_SPEED, 500);
    }
    assert_eq!(b.work_done, 100_000);
    assert!(b.is_complete());
    assert_eq!(b.progress(), 1000);
    b.add_work(CONSTRUCTION_SPEED, 500);
    assert_eq!(b.work_done, 100_000);
}

#[test]
fn partial_work_reports_progress() {
    let mut b = Blueprint::new(BlueprintType::Wall);
    b.add_work(CONSTRUCTION_SPEED, 1000);
    assert_eq!(b.work_done, 50_000);
    assert_eq!(b.progress(), 500);
    assert!(!b.is_complete());
}

#[test]
fn placing_a_wall_reserves_the_tile_and_pays() {
    let mut l = level();
    assert!(l.try_place(BuildingType::Wall, gp(5, 5), DoorOrientation::Horizontal, FurnitureOrientation::East));
    assert_eq!(l.money.amount, 9990);
    let t = l.map.tile(gp(5, 5));
    assert!(t.occupied);
    assert!(t.wall.is_some());
    assert_eq!(l.blueprints.len(), 1);
    assert!(!l.try_place(BuildingType::Wall, gp(5, 5), DoorOrientation::Horizontal, FurnitureOrientation::East));
    assert_eq!(l.money.amount, 9990);
    assert!(!l.try_place(BuildingType::Wall, gp(100, 5), DoorOrientation::Horizontal, FurnitureOrientation::East));
}

#[test]
fn placement_fails_without_money() {
    let mut l = Level::new(GridSettings::default(), Money { amount: 9 });
    assert!(!l.try_place(BuildingType::Wall, gp(1, 1), DoorOrientation::Horizontal, FurnitureOrientation::East));
    assert_eq!(l.money.amount, 9);
    assert!(l.blueprints.is_empty());
}

#[test]
fn doors_replace_walls_and_never_count_as_occupied() {
    let mut l = level();
    assert!(l.place_wall(gp(5, 5)));
    assert!(l.place_door(gp(5, 5), DoorOrientation::Horizontal));
    for p in [gp(5, 5), gp(6, 5)] {
        let t = l.map.tile(p);
        assert!(t.door.is_some());
        assert!(!t.occupied);
        assert!(t.wall.is_none());
    }
    assert!(!l.place_wall(gp(6, 5)));
    assert!(!l.place_door(gp(6, 5), DoorOrientation::Vertical));
    assert!(!l.place_window(gp(5, 5)));
    assert!(!l.place_door(gp(99, 5), DoorOrientation::Horizontal));
}

#[test]
fn windows_replace_walls() {
    let mut l = level();
    assert!(l.place_wall(gp(3, 3)));
    let wall_id = l.map.tile(gp(3, 3)).wall.unwrap();
    assert!(l.place_window(gp(3, 3)));
    let t = l.map.tile(gp(3, 3));
    assert!(t.occupied && t.wall.is_none());
    assert!(l.blueprints.iter().all(|b| b.id != wall_id));
    assert_eq!(l.money.amount, 10000 - 10 - 30);
}

#[test]
fn furniture_needs_floor_on_every_tile() {
    let mut l = level();
    let desk = BuildingType::Furniture(FurnitureType::Desk);
    assert!(!l.try_place(desk, gp(10, 10), DoorOrientation::Horizontal, FurnitureOrientation::East));
    for (x, y) in [(10, 10), (11, 10), (10, 11)] {
        assert!(l.place_floor(gp(x, y), FloorType::Wood));
    }
    assert!(!l.try_place(desk, gp(10, 10), DoorOrientation::Horizontal, FurnitureOrientation::East));
    assert!(l.place_floor(gp(11, 11), FloorType::Wood));
    let before = l.money.amount;
    assert!(l.try_place(desk, gp(10, 10), DoorOrientation::Horizontal, FurnitureOrientation::East));
    assert_eq!(l.money.amount, before - 100);
    assert!(l.map.tile(gp(11, 11)).occupied);
    assert_eq!(l.structures.len(), 1);
}

#[test]
fn reception_console_without_desk_is_refused() {
    let mut l = level();
    let console = BuildingType::Furniture(FurnitureType::ReceptionConsole);
    assert!(!l.try_place(console, gp(20, 20), DoorOrientation::Horizontal, FurnitureOrientation::East));
    assert_eq!(l.money.amount, 10000);
    assert!(l.structures.is_empty());
    assert!(!l.map.tile(gp(20, 20)).occupied);
}

#[test]
fn reception_console_goes_on_a_desk() {
    let mut l = level();
    for (x, y) in [(20, 20), (21, 20), (20, 21), (21, 21)] {
        assert!(l.place_floor(gp(x, y), FloorType::Tile));
    }
    assert!(l.try_place(BuildingType::Furniture(FurnitureType::Desk), gp(20, 20), DoorOrientation::Horizontal, FurnitureOrientation::East));
    let money = l.money.amount;
    let console = BuildingType::Furniture(FurnitureType::ReceptionConsole);
    assert!(l.try_place(console, gp(21, 21), DoorOrientation::Horizontal, FurnitureOrientation::South));
    assert_eq!(l.money.amount, money - 300);
    assert_eq!(l.structures.len(), 2);
    assert!(!l.try_place(console, gp(22, 21), DoorOrientation::Horizontal, FurnitureOrientation::South));
}

fn run_until_idle(l: &mut Level, max_ticks: usize) {
    for _ in 0..max_ticks {
        l.tick(100);
        if l.blueprints.is_empty() && l.markers.is_empty() {
            break;
        }
    }
}

#[test]
fn wall_built_then_taken_down_restores_the_tile() {
    let mut l = level();
    let p = gp(30, 30);
    let before = l.map.tile(p);
    let site = centre(&l, p);
    l.spawn_worker(site);
    assert!(l.place_wall(p));
    run_until_idle(&mut l, 40);
    assert!(l.blueprints.is_empty());
    assert_eq!(l.structures.len(), 1);
    let wall = l.structures[0];
    assert_eq!(wall.kind, StructureKind::Wall);
    assert_eq!(l.map.tile(p).wall, Some(wall.id));
    assert!(l.workers[0].current_job.is_none());
    assert!(l.try_mark_for_deconstruction(wall.id));
    assert!(!l.try_mark_for_deconstruction(wall.id));
    run_until_idle(&mut l, 40);
    assert!(l.markers.is_empty());
    assert!(l.structures.is_empty());
    assert_eq!(l.map.tile(p), before);
}

#[test]
fn idle_workers_take_the_nearest_open_job() {
    let mut l = level();
    let near = gp(10, 10);
    let far = gp(40, 40);
    assert!(l.place_wall(far));
    assert!(l.place_wall(near));
    let w1 = l.spawn_worker(centre(&l, gp(11, 10)));
    let w2 = l.spawn_worker(centre(&l, gp(12, 10)));
    l.assign_jobs_to_pawns();
    let near_id = l.blueprints[1].id;
    let far_id = l.blueprints[0].id;
    assert_eq!(l.workers[0].current_job, Some(JobRef::Construction(near_id)));
    assert_eq!(l.workers[1].current_job, Some(JobRef::Construction(far_id)));
    assert_eq!(l.blueprints[1].job.assigned_pawn, Some(w1));
    assert_eq!(l.blueprints[0].job.assigned_pawn, Some(w2));
    assert_eq!(l.workers[0].movement_target, Some(centre(&l, near)));
}

#[test]
fn disabled_workers_get_no_construction_job() {
    let mut l = level();
    assert!(l.place_wall(gp(10, 10)));
    l.spawn_worker(centre(&l, gp(10, 10)));
    l.workers[0].work_priorities.set_priority(WorkType::Construction, WorkPriority(0));
    l.assign_jobs_to_pawns();
    assert!(l.workers[0].current_job.is_none());
    assert!(l.blueprints[0].job.assigned_pawn.is_none());
}

#[test]
fn work_happens_only_within_reach() {
    let mut l = level();
    assert!(l.place_wall(gp(10, 10)));
    l.spawn_worker(centre(&l, gp(20, 10)));
    l.assign_jobs_to_pawns();
    l.work_step(1000);
    assert_eq!(l.blueprints[0].blueprint.work_done, 0);
    l.workers[0].position = centre(&l, gp(12, 10));
    l.work_step(1000);
    assert_eq!(l.blueprints[0].blueprint.work_done, 50_000);
    assert!(l.workers[0].movement_target.is_none());
}

#[test]
fn receptionists_staff_unstaffed_consoles() {
    let mut l = level();
    for (x, y) in [(20, 20), (21, 20), (20, 21), (21, 21)] {
        assert!(l.place_floor(gp(x, y), FloorType::Tile));
    }
    assert!(l.place_furniture(FurnitureType::Desk, gp(20, 20), FurnitureOrientation::East));
    assert!(l.place_furniture(FurnitureType::ReceptionConsole, gp(20, 20), FurnitureOrientation::East));
    let console_id = l.structures[1].id;
    l.spawn_worker(WorldPos { x: 0, y: 0 });
    l.spawn_worker(WorldPos { x: 0, y: 0 });
    l.workers[1].work_priorities.set_priority(WorkType::Reception, WorkPriority(1));
    l.assign_reception_staff();
    assert_eq!(l.workers[0].staffing, None);
    assert_eq!(l.workers[1].staffing, Some(console_id));
    assert_eq!(l.workers[1].movement_target, Some(centre(&l, gp(20, 20))));
}

#[test]
fn floors_cannot_be_marked_for_deconstruction() {
    let mut l = level();
    let mut save = resort_tycoon::snapshot::SaveData::default();
    save.floors.push(resort_tycoon::snapshot::FloorData {
        position: resort_tycoon::snapshot::GridPoint { x: 3, y: 3 },
        floor_type: FloorType::Wood,
    });
    resort_tycoon::snapshot::apply_save_data(&mut l, &save);
    let id = l.structures[0].id;
    assert!(!l.try_mark_for_deconstruction(id));
    assert!(!l.try_mark_for_deconstruction(id + 100));
}

#[test]
fn drag_marking_marks_each_object_once() {
    let mut l = level();
    let save = resort_tycoon::snapshot::default_room_layout();
    resort_tycoon::snapshot::apply_save_data(&mut l, &save);
    let n = l.mark_area_for_deconstruction(gp(48, 52), gp(52, 52));
    assert_eq!(n, 5);
    assert_eq!(l.mark_area_for_deconstruction(gp(48, 52), gp(52, 52)), 0);
}

#[test]
fn drag_building_places_walls_until_money_runs_out() {
    let mut l = Level::new(GridSettings::default(), Money { amount: 35 });
    let n = l.place_area(BuildingType::Wall, gp(1, 1), gp(1, 5));
    assert_eq!(n, 3);
    assert_eq!(l.money.amount, 5);
    assert_eq!(l.place_area(BuildingType::Door, gp(1, 1), gp(2, 2)), 0);
}

#[test]
fn money_is_only_deducted_when_covered() {
    let mut m = Money { amount: 50 };
    assert!(m.deduct(50));
    assert_eq!(m.amount, 0);
    assert!(!m.deduct(1));
    assert_eq!(m.amount, 0);
    m.add(25);
    assert_eq!(m.amount, 25);
    assert_eq!(BuildingType::Floor(FloorType::Carpet).cost(), 12);
    assert_eq!(BuildingType::Furniture(FurnitureType::Tub).cost(), 275);
}

#[test]
fn input_blocker_and_drag_state() {
    let mut b = UiInputBlocker::default();
    b.context_menu_blocking = true;
    b.recompute();
    assert!(b.block_world_input);
    b.context_menu_blocking = false;
    b.recompute();
    assert!(!b.block_world_input);

    let mut d = DragState::default();
    d.update(gp(3, 3));
    assert!(d.current_pos.is_none());
    d.start(gp(2, 4));
    d.update(gp(4, 3));
    assert_eq!(d.get_drag_positions().len(), 6);
    assert_eq!(d.end(), Some((gp(2, 4), gp(4, 3))));
    assert_eq!(d.end(), None);
    assert!(d.get_drag_positions().is_empty());

    let mut s = TimeSpeed::normal();
    s.set_speed(SpeedOption::VeryFast);
    assert_eq!(s.multiplier, 3);
    assert_eq!(s.scale(100), 300);
}

#[test]
fn previews_agree_with_placement() {
    let mut l = level();
    let none = DoorOrientation::Horizontal;
    let east = FurnitureOrientation::East;
    assert!(l.can_place(BuildingType::Wall, gp(7, 7), none, east));
    assert!(!l.can_place(BuildingType::Furniture(FurnitureType::Chair), gp(7, 7), none, east));
    assert!(!l.can_place(BuildingType::Door, gp(99, 7), none, east));
    assert!(l.can_place(BuildingType::Door, gp(99, 7), DoorOrientation::Vertical, east));
    assert!(l.place_wall(gp(7, 7)));
    assert!(!l.can_place(BuildingType::Wall, gp(7, 7), none, east));
    assert!(l.can_place(BuildingType::Window, gp(7, 7), none, east));
    assert!(!l.can_place(BuildingType::Floor(FloorType::Wood), gp(7, 7), none, east));
    assert_eq!(l.money.amount, 9990);
}

#[test]
fn right_click_finds_what_can_be_taken_down() {
    let mut l = level();
    let data = resort_tycoon::snapshot::default_room_layout();
    resort_tycoon::snapshot::apply_save_data(&mut l, &data);
    let door = l.deconstructible_at(gp(49, 48)).unwrap();
    assert!(l.structures.iter().any(|s| s.id == door && matches!(s.kind, StructureKind::Door(_))));
    assert_eq!(l.deconstructible_at(gp(50, 50)), None);
    l.clear_structures();
    assert!(l.structures.is_empty());
    assert!(!l.map.tile(gp(48, 48)).occupied);
}

#[test]
fn doors_open_for_nearby_workers() {
    let mut l = level();
    assert_eq!(l.door_state_at(gp(10, 10)), resort_tycoon::building::DoorState::Closed);
    l.spawn_worker(centre(&l, gp(13, 10)));
    assert_eq!(l.door_state_at(gp(10, 10)), resort_tycoon::building::DoorState::Open);
    assert_eq!(l.door_state_at(gp(14, 10)), resort_tycoon::building::DoorState::Open);
    assert_eq!(l.door_state_at(gp(17, 10)), resort_tycoon::building::DoorState::Closed);
}

#[test]
fn drag_walls_skip_door_tiles() {
    let mut l = level();
    assert!(l.place_door(gp(5, 5), DoorOrientation::Horizontal));
    let n = l.place_area(BuildingType::Wall, gp(4, 5), gp(7, 5));
    assert_eq!(n, 2);
    for p in [gp(5, 5), gp(6, 5)] {
        let t = l.map.tile(p);
        assert!(t.door.is_some() && !t.occupied && t.wall.is_none());
    }
    assert!(l.map.tile(gp(4, 5)).wall.is_some());
    assert!(l.map.tile(gp(7, 5)).wall.is_some());
}

#[test]
fn priority_labels() {
    assert_eq!(WorkType::Cooking.name(), "Cooking");
    assert_eq!(FurnitureType::Bed(BedType::Double).name(), "Double Bed");
    assert_eq!(FurnitureType::Chair.ascii_char(), '\u{03C0}');
}
