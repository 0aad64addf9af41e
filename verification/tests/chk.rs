use bw_engine::chk::{extract_terrain, parse_sections};
use bw_engine::chk_units::{parse_chk_units, parse_start_locations};
use bw_engine::error::EngineError;

fn build_section(tag: &[u8; 4], data: &[u8]) -> Vec<u8> {
    let mut buf = Vec::new();
    buf.extend_from_slice(tag);
    buf.extend_from_slice(&(data.len() as u32).to_le_bytes());
    buf.extend_from_slice(data);
    buf
}

fn build_chk(sections: &[(&[u8; 4], &[u8])]) -> Vec<u8> {
    let mut buf = Vec::new();
    for (tag, data) in sections {
        buf.extend_from_slice(&build_section(tag, data));
    }
    buf
}

#[test]
fn test_parse_sections() {
    let chk = build_chk(&[(b"DIM ", &[4, 0, 4, 0]), (b"ERA ", &[0, 0])]);
    let sections = parse_sections(&chk).unwrap();
    assert_eq!(sections.len(), 2);
    assert_eq!(sections[0].tag_str(), "DIM ");
    assert_eq!(sections[1].tag_str(), "ERA ");
}

#[test]
fn test_parse_sections_truncated() {
    let mut chk = Vec::new();
    chk.extend_from_slice(b"DIM ");
    chk.extend_from_slice(&4u32.to_le_bytes());
    chk.extend_from_slice(&[4, 0]);
    let sections = parse_sections(&chk).unwrap();
    assert_eq!(sections.len(), 1);
    assert_eq!(sections[0].data.len(), 2);
}

#[test]
fn test_extract_terrain() {
    let mut mtxm = Vec::new();
    for id in [0x0010u16, 0x0020, 0x0030, 0x0040] {
        mtxm.extend_from_slice(&id.to_le_bytes());
    }
    let chk = build_chk(&[(b"DIM ", &[2, 0, 2, 0]), (b"ERA ", &[4, 0]), (b"MTXM", &mtxm)]);
    let sections = parse_sections(&chk).unwrap();
    let terrain = extract_terrain(&sections).unwrap();
    assert_eq!(terrain.width, 2);
    assert_eq!(terrain.height, 2);
    assert_eq!(terrain.tileset_index, 4);
    assert_eq!(terrain.tile_ids, vec![0x0010, 0x0020, 0x0030, 0x0040]);
}

#[test]
fn test_last_section_wins() {
    let chk = build_chk(&[
        (b"DIM ", &[2, 0, 2, 0]),
        (b"ERA ", &[0, 0]),
        (b"MTXM", &[0, 0, 0, 0, 0, 0, 0, 0]),
        (b"DIM ", &[4, 0, 4, 0]),
    ]);
    let sections = parse_sections(&chk).unwrap();
    let terrain = extract_terrain(&sections).unwrap();
    assert_eq!(terrain.width, 4);
    assert_eq!(terrain.height, 4);
}

#[test]
fn test_missing_dim_section() {
    let chk = build_chk(&[(b"ERA ", &[0, 0]), (b"MTXM", &[0, 0])]);
    let sections = parse_sections(&chk).unwrap();
    let result = extract_terrain(&sections);
    assert!(matches!(result, Err(EngineError::MissingSection { .. })));
}

#[test]
fn test_mtxm_short_zero_fills() {
    let chk = build_chk(&[
        (b"DIM ", &[2, 0, 2, 0]),
        (b"ERA ", &[0, 0]),
        (b"MTXM", &[0x10, 0x00, 0x20, 0x00]),
    ]);
    let sections = parse_sections(&chk).unwrap();
    let terrain = extract_terrain(&sections).unwrap();
    assert_eq!(terrain.tile_ids.len(), 4);
    assert_eq!(terrain.tile_ids[0], 0x0010);
    assert_eq!(terrain.tile_ids[1], 0x0020);
    assert_eq!(terrain.tile_ids[2], 0);
    assert_eq!(terrain.tile_ids[3], 0);
}

#[test]
fn test_mtxm_odd_trailing_byte() {
    let chk = build_chk(&[
        (b"DIM ", &[2, 0, 1, 0]),
        (b"ERA ", &[0, 0]),
        (b"MTXM", &[0x10, 0x00, 0x42]),
    ]);
    let sections = parse_sections(&chk).unwrap();
    let terrain = extract_terrain(&sections).unwrap();
    assert_eq!(terrain.tile_ids.len(), 2);
    assert_eq!(terrain.tile_ids[0], 0x0010);
    assert_eq!(terrain.tile_ids[1], 0x0042);
}

#[test]
fn chk_short_dim_reports_invalid_section() {
    let chk = build_chk(&[(b"DIM ", &[2, 0]), (b"ERA ", &[0, 0]), (b"MTXM", &[])]);
    let sections = parse_sections(&chk).unwrap();
    match extract_terrain(&sections) {
        Err(EngineError::InvalidSection { tag, reason }) => {
            assert_eq!(tag, "DIM ");
            assert_eq!(reason, "expected 4 bytes, got 2");
        }
        other => panic!("unexpected {:?}", other),
    }
}

#[test]
fn chk_short_era_reports_invalid_section() {
    let chk = build_chk(&[(b"DIM ", &[2, 0, 2, 0]), (b"ERA ", &[7]), (b"MTXM", &[])]);
    let sections = parse_sections(&chk).unwrap();
    match extract_terrain(&sections) {
        Err(EngineError::InvalidSection { tag, reason }) => {
            assert_eq!(tag, "ERA ");
            assert_eq!(reason, "expected 2 bytes, got 1");
        }
        other => panic!("unexpected {:?}", other),
    }
}

#[test]
fn chk_missing_era_and_mtxm() {
    let chk = build_chk(&[(b"DIM ", &[2, 0, 2, 0])]);
    let sections = parse_sections(&chk).unwrap();
    match extract_terrain(&sections) {
        Err(EngineError::MissingSection { tag }) => assert_eq!(tag, "ERA "),
        other => panic!("unexpected {:?}", other),
    }
    let chk = build_chk(&[(b"DIM ", &[2, 0, 2, 0]), (b"ERA ", &[1, 0])]);
    let sections = parse_sections(&chk).unwrap();
    match extract_terrain(&sections) {
        Err(EngineError::MissingSection { tag }) => assert_eq!(tag, "MTXM"),
        other => panic!("unexpected {:?}", other),
    }
}

#[test]
fn chk_tag_str_invalid_utf8() {
    let chk = build_chk(&[(&[0xFF, 0xFE, 0x41, 0x42], &[1, 2, 3])]);
    let sections = parse_sections(&chk).unwrap();
    assert_eq!(sections[0].tag_str(), "????");
    assert_eq!(sections[0].data, &[1, 2, 3]);
}

#[test]
fn chk_header_shorter_than_eight_bytes_is_ignored() {
    let sections = parse_sections(&[b'D', b'I', b'M', b' ', 4, 0, 0]).unwrap();
    assert!(sections.is_empty());
}

fn build_unit_entry(instance_id: u32, x: u16, y: u16, unit_type: u16, owner: u8) -> Vec<u8> {
    let mut entry = vec![0u8; 36];
    entry[0..4].copy_from_slice(&instance_id.to_le_bytes());
    entry[4..6].copy_from_slice(&x.to_le_bytes());
    entry[6..8].copy_from_slice(&y.to_le_bytes());
    entry[8..10].copy_from_slice(&unit_type.to_le_bytes());
    entry[16] = owner;
    entry[17] = 100;
    entry[18] = 100;
    entry[19] = 100;
    entry
}

fn build_chk_with_units(unit_entries: &[Vec<u8>]) -> Vec<u8> {
    let mut unit_data = Vec::new();
    for entry in unit_entries {
        unit_data.extend_from_slice(entry);
    }
    build_section(b"UNIT", &unit_data)
}

#[test]
fn test_parse_chk_units() {
    let entries = vec![build_unit_entry(0, 100, 200, 0, 0), build_unit_entry(1, 300, 400, 7, 1)];
    let chk = build_chk_with_units(&entries);
    let sections = parse_sections(&chk).unwrap();
    let units = parse_chk_units(&sections).unwrap();
    assert_eq!(units.len(), 2);
    assert_eq!(units[0].x, 100);
    assert_eq!(units[0].y, 200);
    assert_eq!(units[0].unit_type, 0);
    assert_eq!(units[0].owner, 0);
    assert_eq!(units[1].x, 300);
    assert_eq!(units[1].unit_type, 7);
    assert_eq!(units[1].owner, 1);
}

#[test]
fn test_skip_invalid_unit_type() {
    let entries = vec![build_unit_entry(0, 100, 200, 0xFFFF, 0), build_unit_entry(1, 300, 400, 0, 0)];
    let chk = build_chk_with_units(&entries);
    let sections = parse_sections(&chk).unwrap();
    let units = parse_chk_units(&sections).unwrap();
    assert_eq!(units.len(), 1);
    assert_eq!(units[0].unit_type, 0);
}

#[test]
fn test_no_unit_section() {
    let chk = Vec::new();
    let sections = parse_sections(&chk).unwrap();
    let units = parse_chk_units(&sections).unwrap();
    assert!(units.is_empty());
}

#[test]
fn chk_units_start_locations_and_last_section() {
    let first = build_chk_with_units(&[build_unit_entry(9, 1, 1, 0, 0)]);
    let mut entries = vec![
        build_unit_entry(0, 100, 200, 214, 0),
        build_unit_entry(1, 300, 400, 7, 1),
        build_unit_entry(2, 500, 600, 214, 1),
        build_unit_entry(3, 5, 6, 228, 1),
    ];
    entries[1][20..24].copy_from_slice(&1500u32.to_le_bytes());
    let mut chk = first;
    chk.extend_from_slice(&build_chk_with_units(&entries));
    chk.extend_from_slice(&[1, 2, 3]);
    let sections = parse_sections(&chk).unwrap();
    let units = parse_chk_units(&sections).unwrap();
    assert_eq!(units.len(), 3);
    assert_eq!(units[1].resources, 1500);
    assert_eq!(units[2].instance_id, 2);
    let starts = parse_start_locations(&sections);
    assert_eq!(starts, vec![(0, 100, 200), (1, 500, 600)]);
}

#[test]
fn chk_later_good_section_replaces_malformed_one() {
    let mtxm: Vec<u8> = vec![0x10, 0, 0x20, 0, 0x30, 0, 0x40, 0];
    let chk = build_chk(&[
        (b"DIM ", &[2, 0]),
        (b"DIM ", &[2, 0, 2, 0]),
        (b"ERA ", &[9]),
        (b"ERA ", &[4, 0]),
        (b"MTXM", &mtxm),
    ]);
    let sections = parse_sections(&chk).unwrap();
    let terrain = extract_terrain(&sections).unwrap();
    assert_eq!((terrain.width, terrain.height, terrain.tileset_index), (2, 2, 4));
    assert_eq!(terrain.tile_ids, vec![0x10, 0x20, 0x30, 0x40]);
    // A malformed last section is reported even after a good one.
    let chk = build_chk(&[(b"DIM ", &[2, 0, 2, 0]), (b"DIM ", &[1]), (b"ERA ", &[0, 0]), (b"MTXM", &[])]);
    let sections = parse_sections(&chk).unwrap();
    assert!(matches!(extract_terrain(&sections), Err(EngineError::InvalidSection { .. })));
}
