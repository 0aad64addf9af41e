use bw_engine::header::{
    apply_extended_names, decode_string, parse_header, Engine, GameType, PlayerType, Race, Speed,
    EXTENDED_NAME_SIZE, HEADER_SIZE, PLAYER_COLORS_OFFSET, PLAYER_NAMES_SIZE, PLAYER_SLOTS_OFFSET,
    PLAYER_SLOT_SIZE,
};

fn build_test_header() -> Vec<u8> {
    let mut data = vec![0u8; HEADER_SIZE];
    data[0x00] = 0x01;
    data[0x01..0x05].copy_from_slice(&10000u32.to_le_bytes());
    data[0x08..0x0C].copy_from_slice(&1700000000u32.to_le_bytes());
    data[0x18..0x18 + 6].copy_from_slice(b"1v1 me");
    data[0x34..0x36].copy_from_slice(&128u16.to_le_bytes());
    data[0x36..0x38].copy_from_slice(&128u16.to_le_bytes());
    data[0x3A] = 0x06;
    data[0x3C..0x3E].copy_from_slice(&0x02u16.to_le_bytes());
    data[0x48..0x48 + 5].copy_from_slice(b"Flash");
    data[0x61..0x61 + 8].copy_from_slice(b"Polypoid");
    let p0 = PLAYER_SLOTS_OFFSET;
    data[p0..p0 + 2].copy_from_slice(&0u16.to_le_bytes());
    data[p0 + 4] = 0;
    data[p0 + 8] = 0x02;
    data[p0 + 9] = 0x01;
    data[p0 + 10] = 0;
    data[p0 + 11..p0 + 11 + 5].copy_from_slice(b"Flash");
    let p1 = PLAYER_SLOTS_OFFSET + PLAYER_SLOT_SIZE;
    data[p1..p1 + 2].copy_from_slice(&1u16.to_le_bytes());
    data[p1 + 4] = 1;
    data[p1 + 8] = 0x02;
    data[p1 + 9] = 0x02;
    data[p1 + 10] = 1;
    data[p1 + 11..p1 + 11 + 4].copy_from_slice(b"Rain");
    data[PLAYER_COLORS_OFFSET..PLAYER_COLORS_OFFSET + 4].copy_from_slice(&0u32.to_le_bytes());
    data[PLAYER_COLORS_OFFSET + 4..PLAYER_COLORS_OFFSET + 8].copy_from_slice(&1u32.to_le_bytes());
    data
}

#[test]
fn test_parse_header_basic_fields() {
    let data = build_test_header();
    let header = parse_header(&data).unwrap();
    assert_eq!(header.engine, Engine::BroodWar);
    assert_eq!(header.frame_count, 10000);
    assert_eq!(header.start_time, 1700000000);
    assert_eq!(header.game_title, "1v1 me");
    assert_eq!(header.map_width, 128);
    assert_eq!(header.map_height, 128);
    assert_eq!(header.game_speed, Speed::Fastest);
    assert_eq!(header.game_type, GameType::Melee);
    assert_eq!(header.host_name, "Flash");
    assert_eq!(header.map_name, "Polypoid");
}

#[test]
fn test_parse_header_players() {
    let data = build_test_header();
    let header = parse_header(&data).unwrap();
    assert_eq!(header.players.len(), 2);
    assert_eq!(header.players[0].name, "Flash");
    assert_eq!(header.players[0].race, Race::Terran);
    assert_eq!(header.players[0].player_type, PlayerType::Human);
    assert_eq!(header.players[0].race.code(), "T");
    assert_eq!(header.players[1].name, "Rain");
    assert_eq!(header.players[1].race, Race::Protoss);
    assert_eq!(header.players[1].race.code(), "P");
}

#[test]
fn test_parse_header_duration() {
    let data = build_test_header();
    let header = parse_header(&data).unwrap();
    assert_eq!(header.duration_ms(), 420000);
    let secs = header.duration_ms() as f64 / 1000.0;
    assert!((secs - 420.0).abs() < 0.001);
}

#[test]
fn test_parse_header_too_short() {
    let data = vec![0u8; 100];
    assert!(parse_header(&data).is_err());
}

#[test]
fn test_apply_extended_names() {
    let data = build_test_header();
    let mut header = parse_header(&data).unwrap();
    let mut section4 = vec![0u8; PLAYER_NAMES_SIZE];
    section4[0..7].copy_from_slice(b"FlashKT");
    section4[EXTENDED_NAME_SIZE..EXTENDED_NAME_SIZE + 6].copy_from_slice(b"RainCJ");
    apply_extended_names(&mut header, &section4);
    assert_eq!(header.players[0].name, "FlashKT");
    assert_eq!(header.players[1].name, "RainCJ");
}

#[test]
fn test_decode_string_euc_kr() {
    let euc_kr_bytes: &[u8] = &[0xC0, 0xCC, 0xBF, 0xB5, 0xC8, 0xA3, 0x00];
    let result = decode_string(euc_kr_bytes);
    assert_eq!(result, "이영호");
}

#[test]
fn test_decode_string_utf8() {
    let utf8_bytes = b"Flash\x00extra";
    let result = decode_string(utf8_bytes);
    assert_eq!(result, "Flash");
}

#[test]
fn test_inactive_slots_filtered() {
    let mut data = vec![0u8; HEADER_SIZE];
    data[0x00] = 0x01;
    let header = parse_header(&data).unwrap();
    assert!(header.players.is_empty());
}

#[test]
fn header_unknown_codes_colors_and_error_text() {
    let mut data = build_test_header();
    data[0x00] = 0x00;
    data[0x3A] = 0x09;
    data[0x3C..0x3E].copy_from_slice(&0x7777u16.to_le_bytes());
    let header = parse_header(&data).unwrap();
    assert_eq!(header.engine, Engine::StarCraft);
    assert_eq!(header.game_speed, Speed::Unknown(9));
    assert_eq!(header.game_type, GameType::Unknown(0x7777));
    assert_eq!(header.players[1].color, 1);
    assert_eq!(header.players[0].team, 0);
    let err = parse_header(&data[..HEADER_SIZE - 1]).unwrap_err();
    let msg = format!("{:?}", err);
    assert!(msg.contains("InvalidHeader"));
}

#[test]
fn header_short_extended_names_leave_later_slots() {
    let data = build_test_header();
    let mut header = parse_header(&data).unwrap();
    // A section shorter than all the slots is ignored.
    let mut short = vec![0u8; EXTENDED_NAME_SIZE];
    short[0..3].copy_from_slice(b"Bob");
    apply_extended_names(&mut header, &short);
    assert_eq!(header.players[0].name, "Flash");
    let mut section4 = vec![0u8; PLAYER_NAMES_SIZE];
    section4[0..3].copy_from_slice(b"Bob");
    apply_extended_names(&mut header, &section4);
    assert_eq!(header.players[0].name, "Bob");
    assert_eq!(header.players[1].name, "Rain");
    // An empty extended name keeps the old one.
    let empty = vec![0u8; PLAYER_NAMES_SIZE];
    apply_extended_names(&mut header, &empty);
    assert_eq!(header.players[0].name, "Bob");
}

#[test]
fn header_long_name_past_the_section_is_skipped() {
    let data = build_test_header();
    let mut header = parse_header(&data).unwrap();
    header.players[1].slot_id = 8;
    let mut section4 = vec![0u8; PLAYER_NAMES_SIZE];
    section4[0..3].copy_from_slice(b"Bob");
    apply_extended_names(&mut header, &section4);
    assert_eq!(header.players[0].name, "Bob");
    assert_eq!(header.players[1].name, "Rain");
}
