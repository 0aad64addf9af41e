use bw_engine::tile::{GroundHeight, MiniTile, Tile, TileFlags};

#[test]
fn test_tile_walkable() {
    let tile = Tile { flags: TileFlags::WALKABLE, raw_tile_id: 0 };
    assert!(tile.is_walkable());
    assert!(!tile.is_unwalkable());
    assert!(!tile.is_partially_walkable());
}

#[test]
fn test_tile_partially_walkable() {
    let tile = Tile { flags: TileFlags::PARTIALLY_WALKABLE, raw_tile_id: 0 };
    assert!(!tile.is_walkable());
    assert!(!tile.is_unwalkable());
    assert!(tile.is_partially_walkable());
}

#[test]
fn test_tile_ground_height() {
    let low = Tile { flags: TileFlags::WALKABLE, raw_tile_id: 0 };
    assert_eq!(low.ground_height(), GroundHeight::Low);
    let mid = Tile { flags: TileFlags::MIDDLE, raw_tile_id: 0 };
    assert_eq!(mid.ground_height(), GroundHeight::Middle);
    let high = Tile { flags: TileFlags::HIGH, raw_tile_id: 0 };
    assert_eq!(high.ground_height(), GroundHeight::High);
    let very_high = Tile { flags: TileFlags::VERY_HIGH, raw_tile_id: 0 };
    assert_eq!(very_high.ground_height(), GroundHeight::VeryHigh);
}

#[test]
fn test_tile_very_high_takes_precedence() {
    let tile = Tile { flags: TileFlags::VERY_HIGH | TileFlags::HIGH | TileFlags::MIDDLE, raw_tile_id: 0 };
    assert_eq!(tile.ground_height(), GroundHeight::VeryHigh);
}

#[test]
fn test_tile_creep() {
    let tile = Tile { flags: TileFlags::WALKABLE | TileFlags::HAS_CREEP, raw_tile_id: 0 };
    assert!(tile.has_creep());
    assert!(tile.is_walkable());
}

#[test]
fn test_mini_tile_walkable() {
    let mt = MiniTile { flags: MiniTile::WALKABLE };
    assert!(mt.is_walkable());
    assert_eq!(mt.ground_height(), GroundHeight::Low);
}

#[test]
fn test_mini_tile_height() {
    let mt = MiniTile { flags: MiniTile::HIGH | MiniTile::WALKABLE };
    assert!(mt.is_walkable());
    assert_eq!(mt.ground_height(), GroundHeight::High);
}

#[test]
fn test_mini_tile_not_walkable() {
    let mt = MiniTile { flags: 0 };
    assert!(!mt.is_walkable());
    assert_eq!(mt.ground_height(), GroundHeight::Low);
}

#[test]
fn tile_height_order_and_unwalkable_flag() {
    assert!(GroundHeight::Low < GroundHeight::Middle);
    assert!(GroundHeight::High < GroundHeight::VeryHigh);
    let t = Tile { flags: TileFlags::UNWALKABLE | TileFlags::MIDDLE, raw_tile_id: 7 };
    assert!(t.is_unwalkable());
    assert_eq!(t.ground_height(), GroundHeight::Middle);
    let mt = MiniTile { flags: MiniTile::VERY_HIGH | MiniTile::MIDDLE };
    assert_eq!(mt.ground_height(), GroundHeight::VeryHigh);
}

#[test]
fn tile_ground_height_levels() {
    assert_eq!(GroundHeight::Low.level(), 0);
    assert_eq!(GroundHeight::Middle.level(), 1);
    assert_eq!(GroundHeight::High.level(), 2);
    assert_eq!(GroundHeight::VeryHigh.level(), 3);
}
