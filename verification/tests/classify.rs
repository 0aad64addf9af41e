use bw_engine::build_order::{BuildAction, BuildOrderEntry};
use bw_engine::classify::{
    classify_build, opening_actions, Opening, ASSIMILATOR, BARRACKS, CANNON, CYBERNETICS, FACTORY,
    FORGE, GATEWAY, HATCHERY, NEXUS, PYLON, REFINERY, SPAWNING_POOL, STARPORT, SUPPLY_DEPOT,
};
use bw_engine::header::Race;

fn bo_entry(frame: u32, pid: u8, action: BuildAction) -> BuildOrderEntry {
    BuildOrderEntry { frame, player_id: pid, action }
}

#[test]
fn test_classify_111() {
    let bo = vec![
        bo_entry(500, 0, BuildAction::Build(SUPPLY_DEPOT)),
        bo_entry(800, 0, BuildAction::Build(BARRACKS)),
        bo_entry(1200, 0, BuildAction::Build(REFINERY)),
        bo_entry(1800, 0, BuildAction::Build(FACTORY)),
        bo_entry(2500, 0, BuildAction::Build(STARPORT)),
    ];
    let c = classify_build(&bo, 0, Race::Terran);
    assert_eq!(c.tag(), "111");
    assert!(c.confidence_pct() > 70);
}

#[test]
fn test_classify_2rax() {
    let bo = vec![
        bo_entry(500, 0, BuildAction::Build(SUPPLY_DEPOT)),
        bo_entry(800, 0, BuildAction::Build(BARRACKS)),
        bo_entry(1200, 0, BuildAction::Build(BARRACKS)),
    ];
    let c = classify_build(&bo, 0, Race::Terran);
    assert_eq!(c.tag(), "2rax");
}

#[test]
fn test_classify_9pool() {
    let bo = vec![
        bo_entry(100, 0, BuildAction::Train(41)),
        bo_entry(200, 0, BuildAction::Train(41)),
        bo_entry(300, 0, BuildAction::Train(41)),
        bo_entry(400, 0, BuildAction::Train(41)),
        bo_entry(500, 0, BuildAction::Train(41)),
        bo_entry(600, 0, BuildAction::Build(SPAWNING_POOL)),
    ];
    let c = classify_build(&bo, 0, Race::Zerg);
    assert_eq!(c.tag(), "9pool");
}

#[test]
fn test_classify_4pool() {
    let bo = vec![bo_entry(100, 0, BuildAction::Build(SPAWNING_POOL))];
    let c = classify_build(&bo, 0, Race::Zerg);
    assert_eq!(c.tag(), "4pool");
}

#[test]
fn test_classify_12hatch() {
    let bo = vec![
        bo_entry(100, 0, BuildAction::Train(41)),
        bo_entry(200, 0, BuildAction::Train(41)),
        bo_entry(300, 0, BuildAction::Train(41)),
        bo_entry(400, 0, BuildAction::Build(HATCHERY)),
        bo_entry(800, 0, BuildAction::Build(SPAWNING_POOL)),
    ];
    let c = classify_build(&bo, 0, Race::Zerg);
    assert_eq!(c.tag(), "12hatch");
}

#[test]
fn test_classify_1gate_core() {
    let bo = vec![
        bo_entry(500, 0, BuildAction::Build(PYLON)),
        bo_entry(800, 0, BuildAction::Build(GATEWAY)),
        bo_entry(1200, 0, BuildAction::Build(ASSIMILATOR)),
        bo_entry(1600, 0, BuildAction::Build(CYBERNETICS)),
    ];
    let c = classify_build(&bo, 0, Race::Protoss);
    assert_eq!(c.tag(), "1gate_core");
}

#[test]
fn test_classify_forge_fe() {
    let bo = vec![
        bo_entry(500, 0, BuildAction::Build(PYLON)),
        bo_entry(800, 0, BuildAction::Build(FORGE)),
        bo_entry(1200, 0, BuildAction::Build(CANNON)),
        bo_entry(1600, 0, BuildAction::Build(NEXUS)),
        bo_entry(2000, 0, BuildAction::Build(GATEWAY)),
    ];
    let c = classify_build(&bo, 0, Race::Protoss);
    assert!(c.tag().starts_with("forge_fe"));
}

#[test]
fn test_classify_2gate() {
    let bo = vec![
        bo_entry(500, 0, BuildAction::Build(PYLON)),
        bo_entry(800, 0, BuildAction::Build(GATEWAY)),
        bo_entry(1000, 0, BuildAction::Build(GATEWAY)),
    ];
    let c = classify_build(&bo, 0, Race::Protoss);
    assert_eq!(c.tag(), "2gate");
}

#[test]
fn test_classify_all() {
    let bo = vec![
        bo_entry(500, 0, BuildAction::Build(BARRACKS)),
        bo_entry(600, 1, BuildAction::Build(SPAWNING_POOL)),
    ];
    let players = [(0u8, Race::Terran), (1u8, Race::Zerg)];
    let results: Vec<(&str, Opening)> =
        players.iter().map(|(pid, race)| (race.code(), classify_build(&bo, *pid, *race))).collect();
    assert_eq!(results.len(), 2);
    assert_eq!(results[0].0, "T");
    assert_eq!(results[1].0, "Z");
}

#[test]
fn test_classify_empty() {
    let c = classify_build(&[], 0, Race::Terran);
    assert_eq!(c.tag(), "unknown");
}

#[test]
fn classify_names_confidence_and_window() {
    assert_eq!(Opening::NinePool.name(), "9 Pool");
    assert_eq!(Opening::NinePool.confidence_pct(), 80);
    assert_eq!(Opening::ForgeFeNoGateway.tag(), "forge_fe");
    assert_eq!(Opening::ForgeFeNoGateway.confidence_pct(), 75);
    assert_eq!(Opening::Unknown.confidence_pct(), 0);
    assert_eq!(classify_build(&[], 0, Race::Unknown(3)), Opening::Unknown);
    // Only the first fifteen actions of the player count.
    let mut bo: Vec<BuildOrderEntry> = (0..25).map(|i| bo_entry(i, 0, BuildAction::Train(0))).collect();
    bo.push(bo_entry(30, 1, BuildAction::Train(0)));
    assert_eq!(opening_actions(&bo, 0).len(), 15);
    assert_eq!(opening_actions(&bo, 1).len(), 1);
    assert_eq!(opening_actions(&bo, 2).len(), 0);
}

#[test]
fn classify_zerg_pool_timing_by_drones() {
    let mut bo: Vec<BuildOrderEntry> = Vec::new();
    for i in 0..8 {
        bo.push(bo_entry(100 * i, 0, BuildAction::Train(41)));
    }
    bo.push(bo_entry(1000, 0, BuildAction::Build(SPAWNING_POOL)));
    assert_eq!(classify_build(&bo, 0, Race::Zerg), Opening::TwelvePool);
    let mut bo2 = bo.clone();
    bo2.insert(0, bo_entry(50, 0, BuildAction::Train(41)));
    assert_eq!(classify_build(&bo2, 0, Race::Zerg), Opening::Overpool);
}
