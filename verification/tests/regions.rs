use bw_engine::map::TileMap;
use bw_engine::pathfind::{plan_path, route_waypoints, PathPlan};
use bw_engine::regions::RegionMap;
use bw_engine::tile::MiniTile;
use bw_engine::tileset::{CV5_ENTRY_SIZE, VF4_ENTRY_SIZE};

fn build_vf4_entry(flags: &[u16; 16]) -> Vec<u8> {
    let mut entry = vec![0u8; VF4_ENTRY_SIZE];
    for (j, &f) in flags.iter().enumerate() {
        entry[j * 2..j * 2 + 2].copy_from_slice(&f.to_le_bytes());
    }
    entry
}

fn build_cv5_entry(mega_tile_indices: &[u16; 16]) -> Vec<u8> {
    let mut entry = vec![0u8; CV5_ENTRY_SIZE];
    for (j, &idx) in mega_tile_indices.iter().enumerate() {
        entry[20 + j * 2..22 + j * 2].copy_from_slice(&idx.to_le_bytes());
    }
    entry
}

fn build_section(tag: &[u8; 4], data: &[u8]) -> Vec<u8> {
    let mut buf = Vec::new();
    buf.extend_from_slice(tag);
    buf.extend_from_slice(&(data.len() as u32).to_le_bytes());
    buf.extend_from_slice(data);
    buf
}

fn build_map_with_mask(width: u16, height: u16, walkable_mask: &[bool]) -> TileMap {
    let mut vf4 = build_vf4_entry(&[MiniTile::WALKABLE; 16]);
    vf4.extend_from_slice(&build_vf4_entry(&[0u16; 16]));
    let mut indices = [0u16; 16];
    indices[0] = 0;
    indices[1] = 1;
    let cv5 = build_cv5_entry(&indices);
    let mut mtxm = Vec::new();
    for &w in walkable_mask {
        let tile_id: u16 = if w { 0x0000 } else { 0x0001 };
        mtxm.extend_from_slice(&tile_id.to_le_bytes());
    }
    let mut chk = build_section(b"DIM ", &{
        let mut d = Vec::new();
        d.extend_from_slice(&width.to_le_bytes());
        d.extend_from_slice(&height.to_le_bytes());
        d
    });
    chk.extend_from_slice(&build_section(b"ERA ", &[0, 0]));
    chk.extend_from_slice(&build_section(b"MTXM", &mtxm));
    TileMap::from_chk(&chk, &cv5, &vf4).unwrap()
}

#[test]
fn test_fully_walkable_map() {
    let mask = vec![true; 16];
    let map = build_map_with_mask(4, 4, &mask);
    let rm = RegionMap::from_map(&map);
    let walkable_regions: Vec<_> = rm.regions.iter().filter(|r| r.walkable).collect();
    assert_eq!(walkable_regions.len(), 1);
    assert_eq!(walkable_regions[0].tile_count, 16);
}

#[test]
fn test_wall_splits_regions() {
    let w = 6u16;
    let h = 4u16;
    let mut mask = vec![true; (w * h) as usize];
    for y in 0..h {
        mask[(y * w + 3) as usize] = false;
    }
    let map = build_map_with_mask(w, h, &mask);
    let rm = RegionMap::from_map(&map);
    let walkable_regions: Vec<_> = rm.regions.iter().filter(|r| r.walkable).collect();
    assert_eq!(walkable_regions.len(), 2);
    assert_ne!(walkable_regions[0].group, walkable_regions[1].group);
}

#[test]
fn test_corridor_connects_regions() {
    let w = 6u16;
    let h = 4u16;
    let mut mask = vec![true; (w * h) as usize];
    mask[(1 * w + 3) as usize] = false;
    mask[(2 * w + 3) as usize] = false;
    let map = build_map_with_mask(w, h, &mask);
    let rm = RegionMap::from_map(&map);
    let walkable_groups: Vec<_> =
        rm.regions.iter().filter(|r| r.walkable).map(|r| r.group).collect();
    let first = walkable_groups[0];
    assert!(walkable_groups.iter().all(|&g| g == first));
}

#[test]
fn test_region_at_px() {
    let mask = vec![true; 16];
    let map = build_map_with_mask(4, 4, &mask);
    let rm = RegionMap::from_map(&map);
    assert!(rm.region_at_px(16, 16).is_some());
    assert!(rm.region_at_px(-1, 0).is_none());
    assert!(rm.region_at_px(200, 200).is_none());
}

#[test]
fn test_reachable() {
    let w = 6u16;
    let h = 4u16;
    let mut mask = vec![true; (w * h) as usize];
    for y in 0..h {
        mask[(y * w + 3) as usize] = false;
    }
    let map = build_map_with_mask(w, h, &mask);
    let rm = RegionMap::from_map(&map);
    assert!(rm.reachable(16, 16, 48, 48));
    assert!(!rm.reachable(16, 16, 160, 16));
}

#[test]
fn test_neighbors() {
    let w = 4u16;
    let h = 4u16;
    let mut mask = vec![true; (w * h) as usize];
    for y in 0..h {
        mask[(y * w + 2) as usize] = false;
    }
    let map = build_map_with_mask(w, h, &mask);
    let rm = RegionMap::from_map(&map);
    let wall_region = rm.regions.iter().find(|r| !r.walkable).unwrap();
    assert!(wall_region.neighbors.len() >= 2);
}

#[test]
fn regions_centres_counts_and_neighbour_symmetry() {
    // Column 2 is a wall: regions are the left block, the wall, the right column.
    let w = 4u16;
    let h = 4u16;
    let mut mask = vec![true; (w * h) as usize];
    for y in 0..h {
        mask[(y * w + 2) as usize] = false;
    }
    let map = build_map_with_mask(w, h, &mask);
    let rm = RegionMap::from_map(&map);
    assert_eq!(rm.regions.len(), 3);
    let left = rm.region(rm.region_at_px(0, 0).unwrap()).unwrap();
    assert_eq!(left.tile_count, 8);
    // Tiles (0..2, 0..4): mean tile x 0.5, y 1.5, so the pixel centre is (32, 64).
    assert_eq!((left.center_x, left.center_y), (32, 64));
    let right = rm.region(rm.region_at_px(100, 10).unwrap()).unwrap();
    assert_eq!(right.tile_count, 4);
    assert_eq!((right.center_x, right.center_y), (112, 64));
    for r in &rm.regions {
        for &n in &r.neighbors {
            assert!(rm.regions[n].neighbors.contains(&r.index));
            assert_ne!(n, r.index);
        }
    }
    assert!(rm.region(3).is_none());
}

#[test]
fn pathfind_plan_same_region_other_group_and_off_map() {
    let w = 6u16;
    let h = 4u16;
    let mut mask = vec![true; (w * h) as usize];
    for y in 0..h {
        mask[(y * w + 3) as usize] = false;
    }
    let map = build_map_with_mask(w, h, &mask);
    let rm = RegionMap::from_map(&map);
    assert_eq!(plan_path(&rm, 16, 16, 48, 48), PathPlan::Direct);
    assert_eq!(plan_path(&rm, 16, 16, 160, 16), PathPlan::NoPath);
    assert_eq!(plan_path(&rm, -5, 16, 48, 48), PathPlan::NoPath);
    // Onto the wall: unwalkable.
    assert_eq!(plan_path(&rm, 16, 16, 3 * 32 + 5, 16), PathPlan::NoPath);
}

#[test]
fn pathfind_plan_search_and_route() {
    // A wall with gaps at the top and bottom rows: the corridor joins both sides.
    let w = 6u16;
    let h = 4u16;
    let mut mask = vec![true; (w * h) as usize];
    mask[(1 * w + 3) as usize] = false;
    mask[(2 * w + 3) as usize] = false;
    let map = build_map_with_mask(w, h, &mask);
    let rm = RegionMap::from_map(&map);
    let plan = plan_path(&rm, 16, 48, 5 * 32 + 16, 48);
    match plan {
        PathPlan::Direct => {
            // One region spans both sides; nothing to search.
            assert_eq!(rm.region_at_px(16, 48), rm.region_at_px(5 * 32 + 16, 48));
        }
        PathPlan::Search { src_region, dst_region } => {
            assert_ne!(src_region, dst_region);
            let route = vec![dst_region];
            let wps = route_waypoints(&rm, &route, dst_region, 176, 48);
            assert_eq!(wps, vec![(176, 48)]);
        }
        PathPlan::NoPath => panic!("the corridor connects both sides"),
    }
}

#[test]
fn pathfind_plans_for_the_route_scenarios() {
    // Fully walkable 4x4: one region, go straight.
    let map = build_map_with_mask(4, 4, &vec![true; 16]);
    let rm = RegionMap::from_map(&map);
    assert_eq!(plan_path(&rm, 16, 16, 80, 80), PathPlan::Direct);
    assert_eq!(plan_path(&rm, -10, -10, 16, 16), PathPlan::NoPath);
    // A full wall splits the map: no path, and not reachable.
    let (w, h) = (6u16, 4u16);
    let mut mask = vec![true; (w * h) as usize];
    for y in 0..h {
        mask[(y * w + 3) as usize] = false;
    }
    let map = build_map_with_mask(w, h, &mask);
    let rm = RegionMap::from_map(&map);
    assert_eq!(plan_path(&rm, 16, 16, 160, 16), PathPlan::NoPath);
    assert!(!rm.reachable(16, 16, 160, 16));
    // A partial wall: the walkable tiles form one region around it.
    let (w, h) = (8u16, 6u16);
    let mut mask = vec![true; (w * h) as usize];
    for y in 1..4u16 {
        mask[(y * w + 4) as usize] = false;
    }
    let map = build_map_with_mask(w, h, &mask);
    let rm = RegionMap::from_map(&map);
    let (sx, sy, dx, dy) = (2 * 32 + 16, 2 * 32 + 16, 6 * 32 + 16, 2 * 32 + 16);
    assert_eq!(plan_path(&rm, sx, sy, dx, dy), PathPlan::Direct);
    assert!(rm.reachable(sx, sy, dx, dy) && rm.reachable(dx, dy, sx, sy));
}

#[test]
fn pathfind_route_goes_through_region_centres() {
    let map = build_map_with_mask(4, 4, &vec![true; 16]);
    let rm = RegionMap::from_map(&map);
    let r = rm.region_at_px(16, 16).unwrap();
    let (cx, cy) = (rm.regions[r].center_x, rm.regions[r].center_y);
    // A region other than the destination's: its centre, then the destination.
    let wps = route_waypoints(&rm, &vec![r], r + 1, 100, 90);
    assert_eq!(wps, vec![(cx, cy), (100, 90)]);
    // The destination's own region: the destination once.
    let wps = route_waypoints(&rm, &vec![r], r, 100, 90);
    assert_eq!(wps, vec![(100, 90)]);
    // No regions at all: straight to the destination.
    let wps = route_waypoints(&rm, &vec![], r, 100, 90);
    assert_eq!(wps, vec![(100, 90)]);
}
