use bw_engine::build_order::{BuildAction, BuildOrderEntry};
use bw_engine::timeline::{build_timeline, timeline_fits_check, PlayerState};

fn entry(frame: u32, player_id: u8, action: BuildAction) -> BuildOrderEntry {
    BuildOrderEntry { frame, player_id, action }
}

#[test]
fn test_timeline_tracks_investment() {
    let bo = vec![
        entry(100, 0, BuildAction::Train(0)),
        entry(200, 0, BuildAction::Train(0)),
        entry(300, 0, BuildAction::Build(111)),
    ];
    let timeline = build_timeline(&bo, &[0]);
    let last = timeline.last().unwrap();
    let p0 = &last.players[0];
    assert_eq!(p0.minerals_invested, 250);
    assert_eq!(p0.gas_invested, 0);
    assert_eq!(p0.supply_used, 2);
    assert_eq!(p0.units[&0], 2);
    assert_eq!(p0.buildings[&111], 1);
}

#[test]
fn test_timeline_tracks_tech() {
    let bo = vec![
        entry(500, 0, BuildAction::Research(0)),
        entry(600, 0, BuildAction::Upgrade(27)),
    ];
    let timeline = build_timeline(&bo, &[0]);
    let last = timeline.last().unwrap();
    let p0 = &last.players[0];
    assert_eq!(p0.techs, vec![0]);
    assert_eq!(p0.upgrades[&27], 1);
    assert_eq!(p0.minerals_invested, 200);
    assert_eq!(p0.gas_invested, 200);
}

#[test]
fn test_timeline_two_players() {
    let bo = vec![entry(100, 0, BuildAction::Train(7)), entry(100, 1, BuildAction::Train(64))];
    let timeline = build_timeline(&bo, &[0, 1]);
    let last = timeline.last().unwrap();
    assert_eq!(last.players.len(), 2);
}

#[test]
fn test_supply_tracking() {
    let bo = vec![
        entry(100, 0, BuildAction::Build(109)),
        entry(200, 0, BuildAction::Train(0)),
        entry(300, 0, BuildAction::Train(0)),
    ];
    let timeline = build_timeline(&bo, &[0]);
    let last = timeline.last().unwrap();
    let p0 = &last.players[0];
    assert_eq!(p0.supply_max, 8);
    assert_eq!(p0.supply_used, 2);
}

#[test]
fn timeline_snapshots_frames_order_and_unknown_players() {
    let bo = vec![
        entry(10, 5, BuildAction::Train(0)),
        entry(20, 9, BuildAction::Train(0)),
        entry(30, 2, BuildAction::TrainFighter),
    ];
    let timeline = build_timeline(&bo, &[5, 2, 5]);
    assert_eq!(timeline.len(), 4);
    let frames: Vec<u32> = timeline.iter().map(|s| s.frame).collect();
    assert_eq!(frames, vec![0, 10, 20, 30]);
    // Players in increasing id order, each once.
    let ids: Vec<u8> = timeline[0].players.iter().map(|p| p.player_id).collect();
    assert_eq!(ids, vec![2, 5]);
    assert_eq!(timeline[0].players[1].minerals_invested, 0);
    assert_eq!(timeline[1].players[1].minerals_invested, 50);
    // Player 9 is not listed: nothing changes.
    assert_eq!(timeline[2].players[1].minerals_invested, 50);
    assert_eq!(timeline[3].players[0].minerals_invested, 25);
}

#[test]
fn timeline_apply_counts_morphs_and_repeats() {
    let mut p = PlayerState::new(3);
    p.apply(&BuildAction::Research(7));
    p.apply(&BuildAction::Research(7));
    assert_eq!(p.techs, vec![7]);
    p.apply(&BuildAction::Upgrade(1));
    p.apply(&BuildAction::Upgrade(1));
    assert_eq!(p.upgrades[&1], 2);
    p.apply(&BuildAction::UnitMorph(103));
    assert_eq!(p.units[&103], 1);
    p.apply(&BuildAction::BuildingMorph(132));
    assert_eq!(p.buildings[&132], 1);
    let copy = p.snapshot();
    assert_eq!(copy.techs, p.techs);
    assert_eq!(copy.units, p.units);
    assert_eq!(copy.player_id, 3);
}

#[test]
fn timeline_fits_check_and_can_apply() {
    let bo = vec![entry(1, 0, BuildAction::Train(0)), entry(2, 1, BuildAction::Upgrade(3))];
    assert!(timeline_fits_check(&bo, &[0, 1]));
    assert!(timeline_fits_check(&[], &[]));
    let mut p = PlayerState::new(0);
    p.minerals_invested = u32::MAX - 10;
    assert!(!p.can_apply(&BuildAction::Train(0)));
    assert!(p.can_apply(&BuildAction::Research(200)));
    p.minerals_invested = 0;
    p.upgrades.insert(3, 255);
    assert!(!p.can_apply(&BuildAction::Upgrade(3)));
    p.units.insert(0, u32::MAX);
    assert!(!p.can_apply(&BuildAction::Train(0)));
    assert!(p.can_apply(&BuildAction::TrainFighter));
}
