use bw_engine::map::TileMap;
use bw_engine::tile::{GroundHeight, MiniTile, TileFlags};
use bw_engine::tileset::{Tileset, CV5_ENTRY_SIZE, VF4_ENTRY_SIZE};

fn build_cv5_entry(flags: u16, mega_tile_indices: &[u16; 16]) -> Vec<u8> {
    let mut entry = vec![0u8; CV5_ENTRY_SIZE];
    entry[2..4].copy_from_slice(&flags.to_le_bytes());
    for (j, &idx) in mega_tile_indices.iter().enumerate() {
        entry[20 + j * 2..22 + j * 2].copy_from_slice(&idx.to_le_bytes());
    }
    entry
}

fn build_vf4_entry(mini_tile_flags: &[u16; 16]) -> Vec<u8> {
    let mut entry = vec![0u8; VF4_ENTRY_SIZE];
    for (j, &f) in mini_tile_flags.iter().enumerate() {
        entry[j * 2..j * 2 + 2].copy_from_slice(&f.to_le_bytes());
    }
    entry
}

fn build_section(tag: &[u8; 4], data: &[u8]) -> Vec<u8> {
    let mut buf = Vec::new();
    buf.extend_from_slice(tag);
    buf.extend_from_slice(&(data.len() as u32).to_le_bytes());
    buf.extend_from_slice(data);
    buf
}

fn build_test_map() -> (Vec<u8>, Vec<u8>, Vec<u8>) {
    let walkable_flags = [MiniTile::WALKABLE; 16];
    let high_unwalkable_flags = [MiniTile::HIGH; 16];
    let mut vf4_data = build_vf4_entry(&walkable_flags);
    vf4_data.extend_from_slice(&build_vf4_entry(&high_unwalkable_flags));
    let mut indices = [0u16; 16];
    indices[0] = 0;
    indices[1] = 1;
    let cv5_data = build_cv5_entry(0, &indices);
    let mut mtxm = Vec::new();
    for row in 0..4u16 {
        for col in 0..4u16 {
            let tile_id: u16 = if row < 2 && col < 2 { 0x0000 } else { 0x0001 };
            mtxm.extend_from_slice(&tile_id.to_le_bytes());
        }
    }
    let mut chk = build_section(b"DIM ", &[4, 0, 4, 0]);
    chk.extend_from_slice(&build_section(b"ERA ", &[0, 0]));
    chk.extend_from_slice(&build_section(b"MTXM", &mtxm));
    (chk, cv5_data, vf4_data)
}

#[test]
fn test_map_dimensions() {
    let (chk, cv5, vf4) = build_test_map();
    let map = TileMap::from_chk(&chk, &cv5, &vf4).unwrap();
    assert_eq!(map.width(), 4);
    assert_eq!(map.height(), 4);
    assert_eq!(map.width_px(), 128);
    assert_eq!(map.height_px(), 128);
    assert_eq!(map.tileset(), Tileset::Badlands);
}

#[test]
fn test_map_tile_walkability() {
    let (chk, cv5, vf4) = build_test_map();
    let map = TileMap::from_chk(&chk, &cv5, &vf4).unwrap();
    assert!(map.is_tile_walkable(0, 0));
    assert!(map.is_tile_walkable(1, 0));
    assert!(map.is_tile_walkable(0, 1));
    assert!(map.is_tile_walkable(1, 1));
    assert!(!map.is_tile_walkable(2, 0));
    assert!(!map.is_tile_walkable(3, 3));
}

#[test]
fn test_map_tile_height() {
    let (chk, cv5, vf4) = build_test_map();
    let map = TileMap::from_chk(&chk, &cv5, &vf4).unwrap();
    assert_eq!(map.tile_ground_height(0, 0), Some(GroundHeight::Low));
    assert_eq!(map.tile_ground_height(2, 0), Some(GroundHeight::High));
}

#[test]
fn test_map_mini_tile_walkability() {
    let (chk, cv5, vf4) = build_test_map();
    let map = TileMap::from_chk(&chk, &cv5, &vf4).unwrap();
    assert!(map.is_walkable(0, 0));
    assert!(map.is_walkable(3, 3));
    assert!(!map.is_walkable(8, 0));
    assert!(!map.is_walkable(11, 3));
}

#[test]
fn test_map_pixel_walkability() {
    let (chk, cv5, vf4) = build_test_map();
    let map = TileMap::from_chk(&chk, &cv5, &vf4).unwrap();
    assert!(map.is_walkable_px(0, 0));
    assert!(map.is_walkable_px(31, 31));
    assert!(!map.is_walkable_px(64, 0));
}

#[test]
fn test_map_out_of_bounds() {
    let (chk, cv5, vf4) = build_test_map();
    let map = TileMap::from_chk(&chk, &cv5, &vf4).unwrap();
    assert!(map.tile(100, 100).is_none());
    assert!(map.mini_tile(100, 100).is_none());
    assert!(!map.is_walkable(100, 100));
    assert_eq!(map.ground_height(100, 100), None);
}

#[test]
fn test_border_tiles_unwalkable() {
    let walkable_flags = [MiniTile::WALKABLE; 16];
    let vf4_data = build_vf4_entry(&walkable_flags);
    let mut indices = [0u16; 16];
    indices[0] = 0;
    let cv5_data = build_cv5_entry(0, &indices);
    let mut mtxm = Vec::new();
    for _ in 0..(6 * 4) {
        mtxm.extend_from_slice(&0x0000u16.to_le_bytes());
    }
    let mut chk = build_section(b"DIM ", &[6, 0, 4, 0]);
    chk.extend_from_slice(&build_section(b"ERA ", &[0, 0]));
    chk.extend_from_slice(&build_section(b"MTXM", &mtxm));
    let map = TileMap::from_chk(&chk, &cv5_data, &vf4_data).unwrap();
    assert!(map.is_tile_walkable(0, 0));
    assert!(map.is_tile_walkable(5, 1));
    assert!(!map.is_tile_walkable(0, 3));
    assert!(!map.is_tile_walkable(3, 3));
    assert!(!map.is_tile_walkable(0, 2));
    assert!(!map.is_tile_walkable(4, 2));
}

#[test]
fn test_map_group_out_of_cv5_bounds() {
    let vf4_data = build_vf4_entry(&[MiniTile::WALKABLE; 16]);
    let cv5_data = build_cv5_entry(0, &[0u16; 16]);
    let tile_id_oob: u16 = 1 << 4;
    let mut mtxm = Vec::new();
    mtxm.extend_from_slice(&tile_id_oob.to_le_bytes());
    let mut chk = build_section(b"DIM ", &[1, 0, 1, 0]);
    chk.extend_from_slice(&build_section(b"ERA ", &[0, 0]));
    chk.extend_from_slice(&build_section(b"MTXM", &mtxm));
    let map = TileMap::from_chk(&chk, &cv5_data, &vf4_data).unwrap();
    assert!(!map.is_tile_walkable(0, 0));
}

#[test]
fn map_flag_summary_and_border_columns() {
    // 12 walkable mini-tiles is not enough for WALKABLE; 13 is.
    let mut twelve = [0u16; 16];
    for f in twelve.iter_mut().take(12) {
        *f = MiniTile::WALKABLE | MiniTile::MIDDLE;
    }
    let mut thirteen = twelve;
    thirteen[12] = MiniTile::WALKABLE | MiniTile::VERY_HIGH;
    let mut vf4 = build_vf4_entry(&twelve);
    vf4.extend_from_slice(&build_vf4_entry(&thirteen));
    let mut indices = [0u16; 16];
    indices[1] = 1;
    // CV5 flags: creep and cover are kept, walkability bits are recomputed.
    let cv5 = build_cv5_entry(TileFlags::HAS_CREEP | TileFlags::PROVIDES_COVER | TileFlags::WALKABLE, &indices);
    let mut mtxm = Vec::new();
    for i in 0..(10 * 3) {
        let id: u16 = if i % 2 == 0 { 0 } else { 1 };
        mtxm.extend_from_slice(&id.to_le_bytes());
    }
    let mut chk = build_section(b"DIM ", &[10, 0, 3, 0]);
    chk.extend_from_slice(&build_section(b"ERA ", &[12, 0]));
    chk.extend_from_slice(&build_section(b"MTXM", &mtxm));
    let map = TileMap::from_chk(&chk, &cv5, &vf4).unwrap();
    assert_eq!(map.tileset(), Tileset::Jungle);
    let t0 = *map.tile(0, 0).unwrap();
    assert_eq!(
        t0.flags,
        TileFlags::UNWALKABLE | TileFlags::PARTIALLY_WALKABLE | TileFlags::MIDDLE | TileFlags::HAS_CREEP | TileFlags::PROVIDES_COVER
    );
    let t1 = *map.tile(1, 0).unwrap();
    assert!(t1.is_walkable());
    assert_eq!(t1.ground_height(), GroundHeight::VeryHigh);
    // Row 1 (height - 2): columns 0-4 and 5-9 are all border on a 10-wide map.
    let t = *map.tile(5, 1).unwrap();
    assert!(!t.is_walkable() && !t.has_creep());
    assert_eq!(t.flags & TileFlags::UNBUILDABLE, TileFlags::UNBUILDABLE);
    assert_eq!(map.tiles().len(), 30);
    assert_eq!(map.mini_tiles().len(), 480);
    // Mini-tile grid is 40 wide: mini (4..8, 0..4) belongs to tile (1, 0).
    assert_eq!(map.mini_tile(4, 0).unwrap().flags, MiniTile::WALKABLE | MiniTile::MIDDLE);
    assert_eq!(map.mini_tile(4, 3).unwrap().flags, MiniTile::WALKABLE | MiniTile::VERY_HIGH);
    assert_eq!(map.ground_height_px(32, 31), Some(GroundHeight::VeryHigh));
}

#[test]
fn map_far_pixels_are_off_the_map() {
    let (chk, cv5, vf4) = build_test_map();
    let map = TileMap::from_chk(&chk, &cv5, &vf4).unwrap();
    // 524288 / 8 wraps to 0 in 16 bits; it must still read as off the map.
    assert!(!map.is_walkable_px(524288, 0));
    assert!(map.ground_height_px(0, 524288).is_none());
    assert!(map.ground_height_px(0, 0).is_some());
}
