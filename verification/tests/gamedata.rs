use bw_engine::gamedata::{
    is_building, supply_provided, tech_cost, tech_name, unit_cost, unit_name, unit_race,
    upgrade_cost, upgrade_name,
};

#[test]
fn test_common_unit_names() {
    assert_eq!(unit_name(0), "Marine");
    assert_eq!(unit_name(37), "Zergling");
    assert_eq!(unit_name(41), "Drone");
    assert_eq!(unit_name(64), "Probe");
    assert_eq!(unit_name(65), "Zealot");
    assert_eq!(unit_name(66), "Dragoon");
    assert_eq!(unit_name(103), "Lurker");
    assert_eq!(unit_name(131), "Hatchery");
    assert_eq!(unit_name(160), "Gateway");
    assert_eq!(unit_name(111), "Barracks");
}

#[test]
fn test_common_tech_names() {
    assert_eq!(tech_name(0), "Stim Packs");
    assert_eq!(tech_name(5), "Tank Siege Mode");
    assert_eq!(tech_name(19), "Psionic Storm");
    assert_eq!(tech_name(32), "Lurker Aspect");
}

#[test]
fn test_common_upgrade_names() {
    assert_eq!(upgrade_name(27), "Metabolic Boost");
    assert_eq!(upgrade_name(34), "Leg Enhancements");
    assert_eq!(upgrade_name(33), "Singularity Charge");
    assert_eq!(upgrade_name(16), "U-238 Shells");
}

#[test]
fn test_unit_race() {
    assert_eq!(unit_race(0), Some("Terran"));
    assert_eq!(unit_race(37), Some("Zerg"));
    assert_eq!(unit_race(65), Some("Protoss"));
    assert_eq!(unit_race(131), Some("Zerg"));
    assert_eq!(unit_race(160), Some("Protoss"));
    assert_eq!(unit_race(255), None);
}

#[test]
fn test_is_building() {
    assert!(is_building(111));
    assert!(is_building(131));
    assert!(is_building(160));
    assert!(!is_building(0));
    assert!(!is_building(37));
}

#[test]
fn test_unknown_ids() {
    assert_eq!(unit_name(999), "Unknown Unit");
    assert_eq!(tech_name(255), "Unknown Tech");
    assert_eq!(upgrade_name(255), "Unknown Upgrade");
}

#[test]
fn gamedata_costs_and_supply() {
    assert_eq!(unit_cost(0), (50, 0, 1));
    assert_eq!(unit_cost(111), (150, 0, 0));
    assert_eq!(supply_provided(109), 8);
    assert_eq!(supply_provided(0), 0);
    assert_eq!(tech_cost(0), (100, 100));
    assert_eq!(upgrade_cost(27), (100, 100));
    assert_eq!(unit_cost(999), (0, 0, 0));
    // Every building has a race and provides no supply use.
    for id in 0..300u16 {
        if is_building(id) {
            assert!(unit_race(id).is_some());
            assert_eq!(unit_cost(id).2, 0);
        }
    }
}
