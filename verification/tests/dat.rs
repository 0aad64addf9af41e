use bw_engine::dat::{
    parse_flingy_dat, parse_units_dat, parse_weapons_dat, GameData, FLINGY_ACCEL_OFFSET,
    FLINGY_COUNT, FLINGY_DAT_MIN_SIZE, FLINGY_MOVE_TYPE_OFFSET, FLINGY_TOP_SPEED_OFFSET,
    FLINGY_TURN_RATE_OFFSET, U, UNITS_DAT_MIN_SIZE, U_AIR_WEAPON, U_ARMOR, U_BUILD_TIME, U_FLAGS,
    U_FLINGY, U_GROUND_WEAPON, U_HITPOINTS, U_MAX_AIR_HITS, U_MAX_GROUND_HITS, W,
    WEAPONS_DAT_MIN_SIZE, W_BULLET_COUNT, W_COOLDOWN, W_DAMAGE_AMOUNT, W_MAX_RANGE,
};
use bw_engine::error::EngineError;

fn build_flingy_dat() -> Vec<u8> {
    let mut data = vec![0u8; FLINGY_DAT_MIN_SIZE];
    let i = 0;
    let speed: i32 = 1024;
    data[FLINGY_TOP_SPEED_OFFSET + i * 4..FLINGY_TOP_SPEED_OFFSET + i * 4 + 4]
        .copy_from_slice(&speed.to_le_bytes());
    let accel: i16 = 256;
    data[FLINGY_ACCEL_OFFSET + i * 2..FLINGY_ACCEL_OFFSET + i * 2 + 2]
        .copy_from_slice(&accel.to_le_bytes());
    data[FLINGY_TURN_RATE_OFFSET + i] = 20;
    data[FLINGY_MOVE_TYPE_OFFSET + i] = 0;
    data
}

fn build_units_dat() -> Vec<u8> {
    let mut data = vec![0u8; UNITS_DAT_MIN_SIZE];
    data[U_FLINGY] = 0;
    let hp: i32 = 40 * 256;
    data[U_HITPOINTS..U_HITPOINTS + 4].copy_from_slice(&hp.to_le_bytes());
    data[U_GROUND_WEAPON] = 0;
    data[U_MAX_GROUND_HITS] = 1;
    data[U_AIR_WEAPON] = 130;
    data[U_MAX_AIR_HITS] = 0;
    data[U_ARMOR] = 0;
    let bt: u16 = 360;
    data[U_BUILD_TIME..U_BUILD_TIME + 2].copy_from_slice(&bt.to_le_bytes());
    data
}

fn build_weapons_dat() -> Vec<u8> {
    let mut data = vec![0u8; WEAPONS_DAT_MIN_SIZE];
    let dmg: u16 = 6;
    data[W_DAMAGE_AMOUNT..W_DAMAGE_AMOUNT + 2].copy_from_slice(&dmg.to_le_bytes());
    data[W_COOLDOWN] = 15;
    let range: u32 = 128;
    data[W_MAX_RANGE..W_MAX_RANGE + 4].copy_from_slice(&range.to_le_bytes());
    data[W_BULLET_COUNT] = 1;
    data
}

#[test]
fn test_parse_flingy_dat() {
    let data = build_flingy_dat();
    let types = parse_flingy_dat(&data).unwrap();
    assert_eq!(types.len(), FLINGY_COUNT);
    assert_eq!(types[0].top_speed, 1024);
    assert_eq!(types[0].acceleration, 256);
    assert_eq!(types[0].turn_rate, 20);
}

#[test]
fn test_parse_flingy_dat_too_short() {
    assert!(parse_flingy_dat(&vec![0u8; 100]).is_err());
}

#[test]
fn test_parse_units_dat() {
    let data = build_units_dat();
    let types = parse_units_dat(&data).unwrap();
    assert_eq!(types.len(), U);
    assert_eq!(types[0].flingy_id, 0);
    assert_eq!(types[0].hitpoints, 40 * 256);
    assert_eq!(types[0].ground_weapon, 0);
    assert_eq!(types[0].build_time, 360);
}

#[test]
fn test_parse_units_dat_minimal() {
    let data = vec![0u8; U];
    let types = parse_units_dat(&data).unwrap();
    assert_eq!(types.len(), U);
    assert_eq!(types[0].hitpoints, 0);
    assert_eq!(types[0].ground_weapon, 130);
}

#[test]
fn test_parse_weapons_dat() {
    let data = build_weapons_dat();
    let types = parse_weapons_dat(&data).unwrap();
    assert_eq!(types.len(), W);
    assert_eq!(types[0].damage_amount, 6);
    assert_eq!(types[0].cooldown, 15);
    assert_eq!(types[0].max_range, 128);
    assert_eq!(types[0].damage_factor, 1);
}

#[test]
fn test_game_data_from_dat() {
    let flingy = build_flingy_dat();
    let units = build_units_dat();
    let gd = GameData::from_dat(&units, &flingy).unwrap();
    assert_eq!(gd.unit_type(0).unwrap().hitpoints, 40 * 256);
    let ft = gd.flingy_for_unit(0).unwrap();
    assert_eq!(ft.top_speed, 1024);
}

#[test]
fn test_game_data_full() {
    let flingy = build_flingy_dat();
    let units = build_units_dat();
    let weapons = build_weapons_dat();
    let gd = GameData::from_dat_full(&units, &flingy, &weapons).unwrap();
    let wt = gd.weapon_type(0).unwrap();
    assert_eq!(wt.damage_amount, 6);
    assert!(gd.weapon_type(130).is_none());
}

#[test]
fn dat_errors_name_the_file_and_sizes() {
    match parse_units_dat(&[0u8; 10]) {
        Err(EngineError::DatTooShort { file, expected, actual }) => {
            assert_eq!(file, "units.dat");
            assert_eq!(expected, U);
            assert_eq!(actual, 10);
        }
        _ => panic!("expected DatTooShort"),
    }
    match parse_weapons_dat(&[0u8; 5]) {
        Err(EngineError::DatTooShort { file, expected, actual }) => {
            assert_eq!(file, "weapons.dat");
            assert_eq!(expected, WEAPONS_DAT_MIN_SIZE);
            assert_eq!(actual, 5);
        }
        _ => panic!("expected DatTooShort"),
    }
    // from_dat checks flingy.dat first.
    match GameData::from_dat(&[0u8; 10], &[0u8; 10]) {
        Err(EngineError::DatTooShort { file, .. }) => assert_eq!(file, "flingy.dat"),
        _ => panic!("expected DatTooShort"),
    }
    match GameData::from_dat_full(&build_units_dat(), &build_flingy_dat(), &[0u8; 3]) {
        Err(EngineError::DatTooShort { file, .. }) => assert_eq!(file, "weapons.dat"),
        _ => panic!("expected DatTooShort"),
    }
}

#[test]
fn dat_signed_fields_and_building_flag() {
    let mut flingy = build_flingy_dat();
    flingy[FLINGY_ACCEL_OFFSET + 2..FLINGY_ACCEL_OFFSET + 4].copy_from_slice(&(-5i16).to_le_bytes());
    let types = parse_flingy_dat(&flingy).unwrap();
    assert_eq!(types[1].acceleration, -5);
    let mut units = build_units_dat();
    units[U_FLAGS + 4 * 3..U_FLAGS + 4 * 3 + 4].copy_from_slice(&0x0000_0003u32.to_le_bytes());
    units[U_FLINGY + 3] = 200;
    let types = parse_units_dat(&units).unwrap();
    assert!(types[3].is_building);
    assert!(!types[4].is_building);
    let gd = GameData::from_dat(&units, &flingy).unwrap();
    // Flingy id 200 is within the 209 flingy entries; 250 would not be.
    assert!(gd.flingy_for_unit(3).is_some());
    assert!(gd.flingy_for_unit(500).is_none());
    assert!(gd.unit_type(228).is_none());
    assert!(gd.weapon_type(0).is_none()); // from_dat leaves weapons empty
}
