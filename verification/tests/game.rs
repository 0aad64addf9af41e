use bw_engine::game::{
    collision_radius_for_type, energy_for_type, half_supply_provided, is_worker_type,
    max_energy_for_type, EngineCommand, PlayerState, MAX_PLAYERS, MAX_UNITS,
};

#[test]
fn game_player_state_defaults() {
    let p = PlayerState::default();
    assert_eq!((p.minerals, p.gas, p.supply_used, p.supply_max), (0, 0, 0, 0));
    assert_eq!(p.upgrade_levels.len(), 64);
    assert_eq!(p.researched_techs, 0);
    assert_eq!(p.upgrade_level(10), 0);
    assert!(!p.has_tech(3));
    assert_eq!(MAX_PLAYERS, 8);
    assert_eq!(MAX_UNITS, 1700);
}

#[test]
fn game_research_and_upgrade() {
    let mut p = PlayerState::default();
    p.research_tech(3);
    p.research_tech(63);
    p.research_tech(64);
    assert!(p.has_tech(3));
    assert!(p.has_tech(63));
    assert!(!p.has_tech(64));
    assert!(!p.has_tech(4));
    assert_eq!(p.researched_techs, (1u64 << 3) | (1u64 << 63));
    p.increment_upgrade(5);
    p.increment_upgrade(5);
    assert_eq!(p.upgrade_level(5), 2);
    p.increment_upgrade(200);
    assert_eq!(p.upgrade_level(200), 0);
    p.upgrade_levels[6] = 255;
    p.increment_upgrade(6);
    assert_eq!(p.upgrade_level(6), 255);
    let c = EngineCommand::Move { x: 1, y: 2 };
    assert!(matches!(c, EngineCommand::Move { x: 1, y: 2 }));
}

#[test]
fn game_unit_type_tables() {
    assert!(is_worker_type(7) && is_worker_type(41) && is_worker_type(64));
    assert!(!is_worker_type(0));
    assert_eq!(energy_for_type(9), 50 * 256);
    assert_eq!(energy_for_type(0), 0);
    assert_eq!(max_energy_for_type(71), 200 * 256);
    assert_eq!(max_energy_for_type(7), 0);
    assert_eq!(collision_radius_for_type(0, true), 16);
    assert_eq!(collision_radius_for_type(39, false), 16);
    assert_eq!(collision_radius_for_type(0, false), 8);
    assert_eq!(half_supply_provided(106), 20);
    assert_eq!(half_supply_provided(132), 2);
    assert_eq!(half_supply_provided(154), 18);
    assert_eq!(half_supply_provided(0), 0);
    let mut p = PlayerState::default();
    p.add_supply(109);
    p.add_supply(42);
    p.add_supply(7);
    assert_eq!(p.supply_max, 32);
}
