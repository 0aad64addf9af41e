use bw_engine::dat::UnitSize;
use bw_engine::direction::Direction;
use bw_engine::fp8::{Fp8, XY};
use bw_engine::unit::{MoveState, UnitId, UnitState};

fn test_unit(x: i32, y: i32) -> UnitState {
    UnitState {
        id: UnitId::new(0, 0),
        unit_type: 0,
        owner: 0,
        alive: true,
        exact_position: XY::from_pixels(x, y),
        pixel_x: x,
        pixel_y: y,
        velocity: XY::zero(),
        heading: Direction::default(),
        current_speed: Fp8::zero(),
        move_state: MoveState::AtRest,
        move_target: None,
        waypoints: Vec::new(),
        waypoint_index: 0,
        top_speed: 4 * 256,
        acceleration: 256,
        halt_distance: 0,
        turn_rate: 40,
        movement_type: 0,
        hp: 40 * 256,
        max_hp: 40 * 256,
        shields: 0,
        max_shields: 0,
        armor: 0,
        unit_size: UnitSize::Small,
        is_air: false,
        ground_weapon: 0,
        air_weapon: 130,
        weapon_cooldown: 0,
        attack_target: None,
        build_queue: Vec::new(),
        build_timer: 0,
        is_building: false,
        under_construction: false,
        morph_timer: 0,
        morph_target: None,
        energy: 0,
        max_energy: 0,
        is_worker: false,
        mining_timer: 0,
        mining_target: None,
        collision_radius: 8,
    }
}

#[test]
fn test_unit_id_tag_roundtrip() {
    let id = UnitId::new(42, 3);
    let tag = id.to_tag();
    let decoded = UnitId::from_tag(tag);
    assert_eq!(decoded.index(), 42);
    assert_eq!(decoded.generation(), 3);
}

#[test]
fn test_unit_id_from_tag() {
    let id = UnitId::from_tag(4196);
    assert_eq!(id.index(), 100);
    assert_eq!(id.generation(), 2);
}

#[test]
fn test_unit_at_rest_no_movement() {
    let mut unit = test_unit(100, 100);
    let (x0, y0) = (unit.pixel_x, unit.pixel_y);
    unit.update_movement();
    assert_eq!(unit.pixel_x, x0);
    assert_eq!(unit.pixel_y, y0);
}

#[test]
fn test_unit_moves_toward_target() {
    let mut unit = test_unit(100, 100);
    unit.move_state = MoveState::Moving;
    unit.move_target = Some((300, 100));
    for _ in 0..50 {
        unit.update_movement();
    }
    assert!(unit.pixel_x > 100, "unit should have moved east: x={}", unit.pixel_x);
    assert!((unit.pixel_y - 100).abs() < 5, "y drift: {}", unit.pixel_y);
}

#[test]
fn test_unit_arrives_at_target() {
    let mut unit = test_unit(100, 100);
    unit.move_state = MoveState::Moving;
    unit.move_target = Some((120, 100));
    for _ in 0..200 {
        unit.update_movement();
        if unit.move_state == MoveState::Arrived {
            break;
        }
    }
    assert_eq!(unit.move_state, MoveState::Arrived);
    assert_eq!(unit.pixel_x, 120);
    assert_eq!(unit.pixel_y, 100);
    assert!(unit.move_target.is_none());
}

#[test]
fn test_unit_stop() {
    let mut unit = test_unit(100, 100);
    unit.move_state = MoveState::Moving;
    unit.move_target = Some((300, 100));
    for _ in 0..10 {
        unit.update_movement();
    }
    unit.move_state = MoveState::AtRest;
    unit.move_target = None;
    unit.velocity = XY::zero();
    unit.current_speed = Fp8::zero();
    let x_stopped = unit.pixel_x;
    for _ in 0..10 {
        unit.update_movement();
    }
    assert_eq!(unit.pixel_x, x_stopped);
}

#[test]
fn test_speed_caps_at_top_speed() {
    let mut unit = test_unit(100, 100);
    unit.heading = Direction::east();
    unit.move_state = MoveState::Moving;
    unit.move_target = Some((10000, 100));
    for _ in 0..100 {
        unit.update_movement();
    }
    assert!(
        unit.current_speed.raw() <= unit.top_speed,
        "speed {} exceeded top_speed {}",
        unit.current_speed.raw(),
        unit.top_speed
    );
}

#[test]
fn test_waypoint_following() {
    let mut unit = test_unit(100, 100);
    unit.move_state = MoveState::Moving;
    unit.waypoints = vec![(200, 100), (200, 200)];
    unit.waypoint_index = 0;
    unit.move_target = Some((200, 200));
    for _ in 0..500 {
        unit.update_movement();
        if unit.move_state == MoveState::Arrived {
            break;
        }
    }
    assert_eq!(unit.move_state, MoveState::Arrived);
    assert_eq!(unit.pixel_x, 200);
    assert_eq!(unit.pixel_y, 200);
}

#[test]
fn unit_moving_without_target_comes_to_rest() {
    let mut unit = test_unit(50, 60);
    unit.move_state = MoveState::Moving;
    unit.update_movement();
    assert_eq!(unit.move_state, MoveState::AtRest);
    assert_eq!((unit.pixel_x, unit.pixel_y), (50, 60));
}

#[test]
fn unit_id_tag_keeps_low_bits() {
    // The index has 11 bits and the generation 5: larger values are cut.
    let id = UnitId::new(2047, 31);
    assert_eq!(id.to_tag(), 0xFFFF);
    let back = UnitId::from_tag(id.to_tag());
    assert_eq!((back.index(), back.generation()), (2047, 31));
}

#[test]
fn unit_first_step_accelerates_once() {
    let mut unit = test_unit(0, 0);
    unit.heading = Direction::east();
    unit.move_state = MoveState::Moving;
    unit.move_target = Some((1000, 0));
    unit.update_movement();
    // One frame of acceleration from rest.
    assert_eq!(unit.current_speed.raw(), 256);
    assert_eq!(unit.pixel_x, 1);
    assert_eq!(unit.move_state, MoveState::Moving);
}
