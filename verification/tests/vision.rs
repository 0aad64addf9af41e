use bw_engine::vision::VisionMap;

#[test]
fn test_reveal_and_query() {
    let mut vm = VisionMap::new(16, 16);
    vm.reveal_around(128, 128, 3, 0);
    assert!(vm.is_visible(0, 4, 4));
    assert!(vm.is_visible(0, 5, 4));
    assert!(vm.is_visible(0, 7, 4));
    assert!(!vm.is_visible(0, 8, 4));
    assert!(!vm.is_visible(1, 4, 4));
}

#[test]
fn test_explored_persists() {
    let mut vm = VisionMap::new(8, 8);
    vm.reveal_around(64, 64, 2, 0);
    assert!(vm.is_explored(0, 2, 2));
    assert!(vm.is_visible(0, 2, 2));
    vm.clear_visible();
    assert!(!vm.is_visible(0, 2, 2));
    assert!(vm.is_explored(0, 2, 2));
}

#[test]
fn test_visibility_grid() {
    let mut vm = VisionMap::new(4, 4);
    vm.reveal_around(48, 48, 1, 0);
    let grid = vm.visibility_grid(0);
    assert_eq!(grid.len(), 16);
    assert_eq!(grid[4 + 1], 2);
    assert_eq!(grid[0], 0);
}

#[test]
fn vision_circle_and_explored_grid_values() {
    let mut vm = VisionMap::new(10, 10);
    vm.reveal_around(5 * 32 + 16, 5 * 32 + 16, 2, 3);
    // Diagonal (1,1) is inside radius 2 (2 <= 4); (2,2) is not (8 > 4).
    assert!(vm.is_visible(3, 6, 6));
    assert!(!vm.is_visible(3, 7, 7));
    assert!(vm.is_visible(3, 5, 7));
    vm.clear_visible();
    let grid = vm.visibility_grid(3);
    assert_eq!(grid[5 * 10 + 5], 1);
    assert_eq!(grid[0], 0);
    // Off the map and bad players read as fog.
    assert!(!vm.is_visible(3, 10, 0));
    assert!(!vm.is_explored(8, 5, 5));
}

#[test]
fn vision_reveal_at_map_edge_clips() {
    let mut vm = VisionMap::new(4, 4);
    vm.reveal_around(0, 0, 5, 1);
    assert!(vm.is_visible(1, 0, 0));
    assert!(vm.is_visible(1, 3, 3));
    let grid = vm.visibility_grid(1);
    assert_eq!(grid.iter().filter(|&&v| v == 2).count(), 16);
}
