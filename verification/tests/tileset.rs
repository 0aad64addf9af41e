use bw_engine::error::EngineError;
use bw_engine::tileset::{parse_cv5, parse_vf4, Tileset, TilesetData, CV5_ENTRY_SIZE, VF4_ENTRY_SIZE};

#[test]
fn test_tileset_from_index() {
    assert_eq!(Tileset::from_index(0).unwrap(), Tileset::Badlands);
    assert_eq!(Tileset::from_index(4).unwrap(), Tileset::Jungle);
    assert_eq!(Tileset::from_index(7).unwrap(), Tileset::Twilight);
}

#[test]
fn test_tileset_modulo_8() {
    assert_eq!(Tileset::from_index(8).unwrap(), Tileset::Badlands);
    assert_eq!(Tileset::from_index(12).unwrap(), Tileset::Jungle);
    assert_eq!(Tileset::from_index(255).unwrap(), Tileset::Twilight);
}

#[test]
fn test_tileset_file_stems() {
    assert_eq!(Tileset::Badlands.file_stem(), "badlands");
    assert_eq!(Tileset::Arctic.file_stem(), "Ice");
    assert_eq!(Tileset::SpacePlatform.file_stem(), "platform");
}

#[test]
fn tileset_names() {
    assert_eq!(Tileset::SpacePlatform.name(), "Space Platform");
    assert_eq!(Tileset::Twilight.name(), "Twilight");
    assert_eq!(Tileset::Ashworld.file_stem(), "AshWorld");
}

fn build_cv5_entry(flags: u16, mega_tile_indices: &[u16; 16]) -> Vec<u8> {
    let mut entry = vec![0u8; CV5_ENTRY_SIZE];
    entry[2..4].copy_from_slice(&flags.to_le_bytes());
    for (j, &idx) in mega_tile_indices.iter().enumerate() {
        entry[20 + j * 2..22 + j * 2].copy_from_slice(&idx.to_le_bytes());
    }
    entry
}

fn build_vf4_entry(mini_tile_flags: &[u16; 16]) -> Vec<u8> {
    let mut entry = vec![0u8; VF4_ENTRY_SIZE];
    for (j, &f) in mini_tile_flags.iter().enumerate() {
        entry[j * 2..j * 2 + 2].copy_from_slice(&f.to_le_bytes());
    }
    entry
}

#[test]
fn test_parse_cv5_single_entry() {
    let indices: [u16; 16] = [10, 11, 12, 13, 14, 15, 16, 17, 18, 19, 20, 21, 22, 23, 24, 25];
    let data = build_cv5_entry(0x00FF, &indices);
    let entries = parse_cv5(&data).unwrap();
    assert_eq!(entries.len(), 1);
    assert_eq!(entries[0].flags, 0x00FF);
    assert_eq!(entries[0].mega_tile_indices, indices);
}

#[test]
fn test_parse_vf4_single_entry() {
    let flags: [u16; 16] = [1, 0, 1, 0, 0, 1, 0, 1, 1, 1, 0, 0, 0, 0, 1, 1];
    let data = build_vf4_entry(&flags);
    let entries = parse_vf4(&data).unwrap();
    assert_eq!(entries.len(), 1);
    assert_eq!(entries[0].mini_tile_flags, flags);
}

#[test]
fn test_parse_cv5_bad_size() {
    let data = vec![0u8; 51];
    assert!(parse_cv5(&data).is_err());
}

#[test]
fn test_parse_vf4_bad_size() {
    let data = vec![0u8; 33];
    assert!(parse_vf4(&data).is_err());
}

#[test]
fn test_megatile_index_lookup() {
    let mut indices = [0u16; 16];
    indices[5] = 42;
    let cv5_data = build_cv5_entry(0, &indices);
    let vf4_data = build_vf4_entry(&[0u16; 16]);
    let ts = TilesetData::from_bytes(&cv5_data, &vf4_data).unwrap();
    assert_eq!(ts.megatile_index(0x0005), Some(42));
}

#[test]
fn test_megatile_index_out_of_bounds() {
    let cv5_data = build_cv5_entry(0, &[0u16; 16]);
    let vf4_data = build_vf4_entry(&[0u16; 16]);
    let ts = TilesetData::from_bytes(&cv5_data, &vf4_data).unwrap();
    let tile_id = 1u16 << 4;
    assert_eq!(ts.megatile_index(tile_id), None);
}

#[test]
fn test_tile_id_encoding() {
    let raw: u16 = (3 << 4) | 7;
    assert_eq!((raw >> 4) & 0x7FF, 3);
    assert_eq!(raw & 0xF, 7);
}

#[test]
fn tileset_errors_and_lookups() {
    match parse_cv5(&[0u8; 60]) {
        Err(EngineError::TilesetDataTooShort { file, expected, actual }) => {
            assert_eq!(file, "cv5");
            assert_eq!(expected, 52);
            assert_eq!(actual, 8);
        }
        _ => panic!("expected error"),
    }
    match TilesetData::from_bytes(&[], &[0u8; 33]) {
        Err(EngineError::TilesetDataTooShort { file, actual, .. }) => {
            assert_eq!(file, "vf4");
            assert_eq!(actual, 1);
        }
        _ => panic!("expected error"),
    }
    let mut indices = [0u16; 16];
    indices[15] = 1;
    let mut cv5 = build_cv5_entry(0x1234, &[0u16; 16]);
    cv5.extend_from_slice(&build_cv5_entry(0x0040, &indices));
    let mut vf4 = build_vf4_entry(&[3u16; 16]);
    vf4.extend_from_slice(&build_vf4_entry(&[9u16; 16]));
    let ts = TilesetData::from_bytes(&cv5, &vf4).unwrap();
    assert_eq!(ts.megatile_index((1 << 4) | 15), Some(1));
    assert_eq!(ts.cv5_flags(1 << 4), 0x0040);
    assert_eq!(ts.cv5_flags(0x8000 | (2 << 4)), 0);
    assert_eq!(ts.mini_tile_flags(1).unwrap()[0], 9);
    assert!(matches!(
        ts.mini_tile_flags(2),
        Err(EngineError::MegatileLookupOutOfBounds { index: 2, vf4_len: 2 })
    ));
}
