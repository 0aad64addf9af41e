use bw_engine::chk_units::ChkUnit;
use bw_engine::dat::{FlingyType, GameData, UnitSize, UnitType, WeaponType};
use bw_engine::game::{EngineCommand, Game, UnitStats, WeaponKind};
use bw_engine::map::TileMap;
use bw_engine::tile::MiniTile;
use bw_engine::tileset::{CV5_ENTRY_SIZE, VF4_ENTRY_SIZE};
use bw_engine::unit::MoveState;

const MARINE: u16 = 0;
const BARRACKS: u16 = 122;

fn no_stats() -> UnitStats {
    UnitStats {
        sight_range: 0,
        armor_upgrade: 0,
        has_shield: false,
        shield_points: 0,
        unit_size: UnitSize::Independent,
        is_air: false,
        mineral_cost: 0,
        gas_cost: 0,
    }
}

fn test_game_data() -> (GameData, Vec<UnitStats>, Vec<WeaponKind>) {
    let marine_flingy = FlingyType {
        top_speed: 4 * 256,
        acceleration: 256,
        halt_distance: 0,
        turn_rate: 40,
        movement_type: 0,
    };
    let mut flingy_types = vec![FlingyType::default(); 209];
    flingy_types[0] = marine_flingy;

    let marine_ut = UnitType {
        flingy_id: 0,
        turret_unit_type: 228,
        hitpoints: 40 * 256,
        ground_weapon: 0,
        max_ground_hits: 1,
        air_weapon: 130,
        max_air_hits: 0,
        armor: 0,
        build_time: 30,
        is_building: false,
    };
    let barracks_ut = UnitType {
        flingy_id: 0,
        turret_unit_type: 228,
        hitpoints: 1000 * 256,
        ground_weapon: 130,
        max_ground_hits: 0,
        air_weapon: 130,
        max_air_hits: 0,
        armor: 1,
        build_time: 0,
        is_building: true,
    };
    let mut unit_types = vec![UnitType::default(); 228];
    unit_types[MARINE as usize] = marine_ut;
    unit_types[BARRACKS as usize] = barracks_ut;

    let mut stats = vec![no_stats(); 228];
    stats[MARINE as usize] = UnitStats {
        sight_range: 7,
        unit_size: UnitSize::Small,
        mineral_cost: 50,
        ..no_stats()
    };
    stats[BARRACKS as usize] = UnitStats {
        sight_range: 7,
        unit_size: UnitSize::Large,
        mineral_cost: 150,
        ..no_stats()
    };

    let marine_weapon = WeaponType {
        damage_amount: 6,
        damage_bonus: 0,
        cooldown: 15,
        damage_factor: 1,
        max_range: 128,
    };
    let mut weapon_types = vec![WeaponType::default(); 130];
    weapon_types[0] = marine_weapon;
    let normal = WeaponKind { ignores_armor: false, size_modifier: [(1, 1); 4] };
    let kinds = vec![normal; 130];

    (GameData { flingy_types, unit_types, weapon_types }, stats, kinds)
}

fn test_map() -> TileMap {
    let walkable = [MiniTile::WALKABLE; 16];
    let mut vf4 = vec![0u8; VF4_ENTRY_SIZE];
    for (j, &f) in walkable.iter().enumerate() {
        vf4[j * 2..j * 2 + 2].copy_from_slice(&f.to_le_bytes());
    }
    let mut cv5 = vec![0u8; CV5_ENTRY_SIZE];
    cv5[20..22].copy_from_slice(&0u16.to_le_bytes());

    let mut chk = Vec::new();
    chk.extend_from_slice(b"DIM ");
    chk.extend_from_slice(&4u32.to_le_bytes());
    chk.extend_from_slice(&8u16.to_le_bytes());
    chk.extend_from_slice(&8u16.to_le_bytes());
    chk.extend_from_slice(b"ERA ");
    chk.extend_from_slice(&2u32.to_le_bytes());
    chk.extend_from_slice(&0u16.to_le_bytes());
    let mtxm: Vec<u8> = vec![0u8; 8 * 8 * 2];
    chk.extend_from_slice(b"MTXM");
    chk.extend_from_slice(&(mtxm.len() as u32).to_le_bytes());
    chk.extend_from_slice(&mtxm);

    TileMap::from_chk(&chk, &cv5, &vf4).unwrap()
}

fn new_game() -> Game {
    let (data, stats, kinds) = test_game_data();
    Game::new(test_map(), data, stats, kinds)
}

fn make_chk_unit(id: u32, x: u16, y: u16, unit_type: u16, owner: u8) -> ChkUnit {
    ChkUnit {
        instance_id: id,
        x,
        y,
        unit_type,
        owner,
        hp_percent: 100,
        shield_percent: 0,
        energy_percent: 0,
        resources: 0,
    }
}

#[test]
fn test_load_initial_units() {
    let mut game = new_game();
    let units = vec![make_chk_unit(0, 50, 50, 0, 0), make_chk_unit(1, 80, 80, 0, 1)];
    game.load_initial_units(&units).unwrap();
    assert_eq!(game.unit_count(), 2);
    let u0 = game.unit_by_tag(0).unwrap();
    assert_eq!(u0.pixel_x, 50);
    assert_eq!(u0.hp, 40 * 256);
}

#[test]
fn test_select_and_move() {
    let mut game = new_game();
    game.load_initial_units(&[make_chk_unit(0, 50, 50, 0, 0)]).unwrap();
    game.apply_command(0, &EngineCommand::Select(vec![0]));
    game.apply_command(0, &EngineCommand::Move { x: 100, y: 50 });
    for _ in 0..50 {
        game.step();
    }
    assert!(game.unit_by_tag(0).unwrap().pixel_x > 50);
}

#[test]
fn test_select_and_stop() {
    let mut game = new_game();
    game.load_initial_units(&[make_chk_unit(0, 50, 50, 0, 0)]).unwrap();
    game.apply_command(0, &EngineCommand::Select(vec![0]));
    game.apply_command(0, &EngineCommand::Move { x: 200, y: 50 });
    for _ in 0..10 {
        game.step();
    }
    let x = game.unit_by_tag(0).unwrap().pixel_x;
    game.apply_command(0, &EngineCommand::Stop);
    for _ in 0..10 {
        game.step();
    }
    assert_eq!(game.unit_by_tag(0).unwrap().pixel_x, x);
}

#[test]
fn test_unit_arrives() {
    let mut game = new_game();
    game.load_initial_units(&[make_chk_unit(0, 50, 50, 0, 0)]).unwrap();
    game.apply_command(0, &EngineCommand::Select(vec![0]));
    game.apply_command(0, &EngineCommand::Move { x: 70, y: 50 });
    for _ in 0..200 {
        game.step();
    }
    let u = game.unit_by_tag(0).unwrap();
    assert_eq!(u.move_state, MoveState::Arrived);
    assert_eq!(u.pixel_x, 70);
}

#[test]
fn test_step_to() {
    let mut game = new_game();
    game.step_to(100);
    assert_eq!(game.current_frame(), 100);
}

#[test]
fn test_attack_kills_target() {
    let mut game = new_game();
    game.load_initial_units(&[make_chk_unit(0, 50, 50, 0, 0), make_chk_unit(1, 100, 50, 0, 1)])
        .unwrap();
    game.set_unit_health(0, 200 * 256, 200 * 256, 0, 0);

    game.apply_command(0, &EngineCommand::Select(vec![0]));
    game.apply_command(0, &EngineCommand::Attack { target_tag: 1 });

    for _ in 0..200 {
        game.step();
        if game.unit_by_tag(1).is_none() {
            break;
        }
    }

    assert!(game.unit_by_tag(1).is_none(), "target should be dead");
    assert!(game.unit_by_tag(0).is_some(), "attacker should be alive");
}

#[test]
fn test_attack_clears_on_target_death() {
    let mut game = new_game();
    game.load_initial_units(&[make_chk_unit(0, 50, 50, 0, 0), make_chk_unit(1, 100, 50, 0, 1)])
        .unwrap();
    game.set_unit_health(0, 200 * 256, 200 * 256, 0, 0);

    game.apply_command(0, &EngineCommand::Select(vec![0]));
    game.apply_command(0, &EngineCommand::Attack { target_tag: 1 });

    for _ in 0..300 {
        game.step();
    }

    let attacker = game.unit_by_tag(0).unwrap();
    assert!(attacker.attack_target.is_none());
}

#[test]
fn test_attack_moves_into_range() {
    let mut game = new_game();
    game.load_initial_units(&[make_chk_unit(0, 20, 50, 0, 0), make_chk_unit(1, 200, 50, 0, 1)])
        .unwrap();

    game.apply_command(0, &EngineCommand::Select(vec![0]));
    game.apply_command(0, &EngineCommand::Attack { target_tag: 1 });

    for _ in 0..20 {
        game.step();
    }

    let attacker = game.unit_by_tag(0).unwrap();
    assert!(attacker.pixel_x > 20, "attacker should move toward target");
}

#[test]
fn test_train_produces_unit() {
    let mut game = new_game();
    game.load_initial_units(&[make_chk_unit(0, 100, 100, 122, 0)]).unwrap();
    game.set_player_resources(0, 500, 500);
    let initial_count = game.unit_count();

    game.apply_command(0, &EngineCommand::Select(vec![0]));
    game.apply_command(0, &EngineCommand::Train { unit_type: 0 });

    for _ in 0..50 {
        game.step();
    }

    assert_eq!(game.unit_count(), initial_count + 1, "should have spawned a marine");
}

#[test]
fn test_train_queue() {
    let mut game = new_game();
    game.load_initial_units(&[make_chk_unit(0, 100, 100, 122, 0)]).unwrap();
    game.set_player_resources(0, 500, 500);

    game.apply_command(0, &EngineCommand::Select(vec![0]));
    game.apply_command(0, &EngineCommand::Train { unit_type: 0 });
    game.apply_command(0, &EngineCommand::Train { unit_type: 0 });

    for _ in 0..80 {
        game.step();
    }

    assert_eq!(game.unit_count(), 3);
}

#[test]
fn test_train_insufficient_resources() {
    let mut game = new_game();
    game.load_initial_units(&[make_chk_unit(0, 100, 100, 122, 0)]).unwrap();

    game.apply_command(0, &EngineCommand::Select(vec![0]));
    game.apply_command(0, &EngineCommand::Train { unit_type: 0 });

    for _ in 0..50 {
        game.step();
    }

    assert_eq!(game.unit_count(), 1);
}

#[test]
fn test_shields_absorb_damage() {
    let mut game = new_game();
    game.load_initial_units(&[make_chk_unit(0, 50, 50, 0, 0), make_chk_unit(1, 100, 50, 0, 1)])
        .unwrap();
    game.set_unit_health(1, 200 * 256, 200 * 256, 20 * 256, 20 * 256);
    game.set_unit_health(0, 200 * 256, 200 * 256, 0, 0);

    game.apply_command(0, &EngineCommand::Select(vec![0]));
    game.apply_command(0, &EngineCommand::Attack { target_tag: 1 });

    for _ in 0..50 {
        game.step();
    }

    let target = game.unit_by_tag(1).unwrap();
    assert!(target.shields < 20 * 256, "shields should be damaged");
}

#[test]
fn game_turret_slot_is_reserved() {
    let (mut data, stats, kinds) = test_game_data();
    // A tank (type 5) with a turret (type 6) takes two slots.
    data.unit_types[5] = UnitType { turret_unit_type: 6, hitpoints: 150 * 256, ..UnitType::default() };
    let mut game = Game::new(test_map(), data, stats, kinds);
    game.load_initial_units(&[
        make_chk_unit(0, 10, 10, 5, 0),
        make_chk_unit(1, 20, 20, 214, 0),
        make_chk_unit(2, 30, 30, 0, 0),
    ])
    .unwrap();
    // Tank in slot 0, its turret in slot 1, the start location takes none,
    // the marine in slot 2.
    assert_eq!(game.unit_by_tag(0).unwrap().unit_type, 5);
    assert_eq!(game.unit_by_tag(1).unwrap().unit_type, 6);
    assert_eq!(game.unit_by_tag(2).unwrap().unit_type, 0);
    assert_eq!(game.unit_by_tag(2).unwrap().pixel_x, 30);
    assert_eq!(game.unit_count(), 3);
}

#[test]
fn game_build_pays_and_constructs() {
    let mut game = new_game();
    game.set_player_resources(0, 200, 0);
    game.apply_command(0, &EngineCommand::Build { x: 2, y: 3, unit_type: BARRACKS });
    let b = game.unit_by_tag(0).unwrap();
    assert_eq!((b.pixel_x, b.pixel_y), (2 * 32 + 16, 3 * 32 + 16));
    assert!(b.is_building);
    assert_eq!(game.player_state(0).unwrap().minerals, 50);
    assert!(game.player_state(8).is_none());
}

#[test]
fn game_research_and_upgrade_commands() {
    let mut game = new_game();
    game.apply_command(1, &EngineCommand::Research { tech_type: 5 });
    game.apply_command(1, &EngineCommand::Upgrade { upgrade_type: 9 });
    let p = game.player_state(1).unwrap();
    assert!(p.has_tech(5));
    assert_eq!(p.upgrade_level(9), 1);
    assert!(!game.player_state(0).unwrap().has_tech(5));
}

#[test]
fn game_select_add_and_remove() {
    let mut game = new_game();
    game.load_initial_units(&[make_chk_unit(0, 50, 50, 0, 0), make_chk_unit(1, 60, 50, 0, 0)])
        .unwrap();
    game.apply_command(0, &EngineCommand::Select(vec![0]));
    game.apply_command(0, &EngineCommand::SelectAdd(vec![1]));
    game.apply_command(0, &EngineCommand::SelectRemove(vec![0]));
    game.apply_command(0, &EngineCommand::Move { x: 90, y: 50 });
    assert_eq!(game.unit_by_tag(0).unwrap().move_state, MoveState::AtRest);
    assert_eq!(game.unit_by_tag(1).unwrap().move_state, MoveState::Moving);
}

#[test]
fn game_waypoints_are_followed() {
    let mut game = new_game();
    game.load_initial_units(&[make_chk_unit(0, 50, 50, 0, 0)]).unwrap();
    game.apply_command(0, &EngineCommand::Select(vec![0]));
    game.apply_command(0, &EngineCommand::Move { x: 50, y: 90 });
    game.set_waypoints(0, vec![(50, 60), (50, 90)]);
    assert_eq!(game.unit_by_tag(0).unwrap().waypoints, vec![(50, 60), (50, 90)]);
    for _ in 0..200 {
        game.step();
    }
    let u = game.unit_by_tag(0).unwrap();
    assert_eq!((u.pixel_x, u.pixel_y), (50, 90));
}

#[test]
fn game_overlapping_units_are_pushed_apart() {
    let mut game = new_game();
    game.load_initial_units(&[make_chk_unit(0, 50, 50, 0, 0), make_chk_unit(1, 54, 50, 0, 0)])
        .unwrap();
    // Same owner: no combat. Frame 4 runs the separation.
    game.step_to(4);
    let a = game.unit_by_tag(0).unwrap().pixel_x;
    let b = game.unit_by_tag(1).unwrap().pixel_x;
    // Distance 4, overlap 12: each moves 6 pixels away from the other.
    assert_eq!((a, b), (44, 60));
}

#[test]
fn game_melee_starting_units() {
    let (mut data, stats, kinds) = test_game_data();
    for t in [7usize, 35, 41, 42, 106, 131] {
        data.unit_types[t] = UnitType { turret_unit_type: 228, hitpoints: 256, ..UnitType::default() };
    }
    let mut game = Game::new(test_map(), data, stats, kinds);
    game.create_melee_starting_units(&[(0, 100, 100), (1, 500, 100)], &[(0, 1), (1, 0)], 1000, 1000);
    // Terran: command center, then four SCVs.
    assert_eq!(game.unit_by_tag(0).unwrap().unit_type, 106);
    for tag in 1..5 {
        assert_eq!(game.unit_by_tag(tag).unwrap().unit_type, 7);
    }
    // Zerg: hatchery, two larvae, an overlord toward the centre, four drones.
    assert_eq!(game.unit_by_tag(5).unwrap().unit_type, 131);
    let larva = game.unit_by_tag(6).unwrap();
    assert_eq!((larva.unit_type, larva.pixel_x, larva.pixel_y), (35, 468, 132));
    let overlord = game.unit_by_tag(8).unwrap();
    assert_eq!((overlord.unit_type, overlord.pixel_x, overlord.pixel_y), (42, 436, 164));
    assert_eq!(game.unit_by_tag(12).unwrap().unit_type, 41);
    assert_eq!(game.unit_count(), 13);
}

#[test]
fn game_units_lists_live_units_in_slot_order() {
    let mut game = new_game();
    game.load_initial_units(&[make_chk_unit(0, 50, 50, 0, 0), make_chk_unit(1, 500, 50, 0, 0)])
        .unwrap();
    game.set_unit_health(0, 0, 40 * 256, 0, 0);
    // A unit with no hit points is still alive until a hit kills it.
    let xs: Vec<i32> = game.units().iter().map(|u| u.pixel_x).collect();
    assert_eq!(xs, vec![50, 500]);
    assert_eq!(game.current_frame(), 0);
}

#[test]
fn game_hotkey_groups() {
    let mut game = new_game();
    game.load_initial_units(&[make_chk_unit(0, 50, 50, 0, 0), make_chk_unit(1, 60, 50, 0, 0)])
        .unwrap();
    game.apply_command(0, &EngineCommand::Select(vec![0]));
    game.apply_command(0, &EngineCommand::HotkeyAssign { group: 3 });
    game.apply_command(0, &EngineCommand::Select(vec![1]));
    // Group 12 does not exist: nothing is recalled.
    game.apply_command(0, &EngineCommand::HotkeyRecall { group: 12 });
    game.apply_command(0, &EngineCommand::HotkeyRecall { group: 3 });
    game.apply_command(0, &EngineCommand::Move { x: 90, y: 50 });
    assert_eq!(game.unit_by_tag(0).unwrap().move_state, MoveState::Moving);
    assert_eq!(game.unit_by_tag(1).unwrap().move_state, MoveState::AtRest);
}

#[test]
fn game_step_to_past_frame_changes_nothing() {
    let mut game = new_game();
    game.load_initial_units(&[make_chk_unit(0, 50, 50, 0, 0)]).unwrap();
    game.apply_command(0, &EngineCommand::Select(vec![0]));
    game.apply_command(0, &EngineCommand::Move { x: 90, y: 50 });
    game.step_to(5);
    let x = game.unit_by_tag(0).unwrap().pixel_x;
    game.step_to(3);
    assert_eq!(game.current_frame(), 5);
    assert_eq!(game.unit_by_tag(0).unwrap().pixel_x, x);
}

#[test]
fn game_tags_name_their_slots() {
    let mut game = new_game();
    game.load_initial_units(&[make_chk_unit(0, 50, 50, 0, 0), make_chk_unit(1, 60, 50, 0, 1)])
        .unwrap();
    // A tag's generation bits are ignored; the index picks the slot.
    let u = game.unit_by_tag(1 | (3 << 11)).unwrap();
    assert_eq!(u.id.index(), 1);
    assert_eq!(u.owner, 1);
    assert!(game.unit_by_tag(2).is_none());
}

#[test]
fn game_starts_in_fog_and_units_reveal() {
    let mut game = new_game();
    assert_eq!((game.map().width(), game.map().height()), (8, 8));
    assert_eq!(game.visibility_grid(0), vec![0u8; 64]);
    assert!(game.visibility_grid(8).is_empty());
    // A marine (sight 7) at the top-left corner; frame 4 updates vision.
    game.load_initial_units(&[make_chk_unit(0, 16, 16, 0, 0)]).unwrap();
    game.step_to(4);
    let grid = game.visibility_grid(0);
    assert_eq!(grid[0], 2);
    assert_eq!(grid[63], 0);
    assert_eq!(game.visibility_grid(1), vec![0u8; 64]);
}

#[test]
fn game_workers_mine_minerals() {
    let (mut data, stats, kinds) = test_game_data();
    data.unit_types[7] = UnitType { turret_unit_type: 228, hitpoints: 60 * 256, ..UnitType::default() };
    let mut game = Game::new(test_map(), data, stats, kinds);
    // An SCV (a worker) far from any enemy.
    game.load_initial_units(&[make_chk_unit(0, 50, 50, 7, 0)]).unwrap();
    assert!(game.unit_by_tag(0).unwrap().is_worker);
    // Frame 8 starts a trip; 75 mining rounds later (every 8 frames) it delivers.
    game.step_to(8 * 75);
    assert_eq!(game.player_state(0).unwrap().minerals, 0);
    game.step_to(8 * 76);
    assert_eq!(game.player_state(0).unwrap().minerals, 8);
    assert_eq!(game.player_state(0).unwrap().gas, 0);
}

#[test]
fn game_casters_regenerate_energy() {
    let (mut data, stats, kinds) = test_game_data();
    // A science vessel (type 9) starts with 50 energy and holds 200.
    data.unit_types[9] = UnitType { turret_unit_type: 228, hitpoints: 200 * 256, ..UnitType::default() };
    let mut game = Game::new(test_map(), data, stats, kinds);
    game.load_initial_units(&[make_chk_unit(0, 50, 50, 9, 0)]).unwrap();
    let u = game.unit_by_tag(0).unwrap();
    assert_eq!((u.energy, u.max_energy), (50 * 256, 200 * 256));
    game.step_to(10);
    assert_eq!(game.unit_by_tag(0).unwrap().energy, 50 * 256 + 80);
}
