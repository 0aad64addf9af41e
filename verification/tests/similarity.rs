use bw_engine::build_order::{BuildAction, BuildOrderEntry};
use bw_engine::similarity::ActionKey::{Build, BuildingMorph, Research, Train, TrainFighter, UnitMorph, Upgrade};
use bw_engine::similarity::{edit_distance, lcs_length, ActionKey, BuildSequence};

fn entry(frame: u32, player: u8, action: BuildAction) -> BuildOrderEntry {
    BuildOrderEntry { frame, player_id: player, action }
}

#[test]
fn test_from_build_order() {
    let bo = vec![
        entry(100, 0, BuildAction::Train(7)),
        entry(200, 1, BuildAction::Train(64)),
        entry(300, 0, BuildAction::Build(111)),
        entry(400, 0, BuildAction::Train(0)),
    ];
    let p0 = BuildSequence::from_build_order(&bo, 0);
    assert_eq!(p0.len(), 3);
    let p1 = BuildSequence::from_build_order(&bo, 1);
    assert_eq!(p1.len(), 1);
}

#[test]
fn test_from_build_order_opening() {
    let bo = vec![
        entry(100, 0, BuildAction::Train(7)),
        entry(200, 0, BuildAction::Train(7)),
        entry(300, 0, BuildAction::Build(111)),
        entry(400, 0, BuildAction::Train(0)),
        entry(500, 0, BuildAction::Train(0)),
    ];
    let opening = BuildSequence::from_build_order_opening(&bo, 0, 3);
    assert_eq!(opening.len(), 3);
}

#[test]
fn similarity_edit_distance_examples() {
    let a = [Train(7), Train(7), Build(111)];
    let b = [Train(7), Train(7), Build(113)];
    assert_eq!(edit_distance(&a, &a), 0);
    assert_eq!(edit_distance(&a, &b), 1);
    let c = [Train(0), Train(0), Train(0)];
    let d = [Build(111), Build(113), Build(114)];
    assert_eq!(edit_distance(&c, &d), 3);
    assert_eq!(edit_distance(&[], &[Train(0)]), 1);
    assert_eq!(edit_distance(&[], &[]), 0);
    let e = [Train(7), Build(111)];
    let f = [Train(7), Build(111), Train(0)];
    assert_eq!(edit_distance(&e, &f), 1);
    assert_eq!(edit_distance(&f, &e), 1);
    // kitten/sitting shaped example: three edits.
    let g = [Research(1), Research(2), Upgrade(3), Upgrade(3), Research(4), Build(5)];
    let h = [Upgrade(9), Research(2), Upgrade(3), Upgrade(3), Research(6), Build(5), TrainFighter];
    assert_eq!(edit_distance(&g, &h), 3);
}

#[test]
fn similarity_lcs_examples() {
    let a = [Train(7), Build(111)];
    let b = [Train(7), Train(0), Build(111)];
    assert_eq!(lcs_length(&a, &b), 2);
    assert_eq!(lcs_length(&[Train(0)], &[Build(111)]), 0);
    assert_eq!(lcs_length(&b, &b), 3);
    assert_eq!(lcs_length(&[], &b), 0);
    let c = [UnitMorph(1), BuildingMorph(2), UnitMorph(3), BuildingMorph(4)];
    let d = [BuildingMorph(2), UnitMorph(1), BuildingMorph(4), UnitMorph(3)];
    assert_eq!(lcs_length(&c, &d), 2);
}

#[test]
fn similarity_sequence_views() {
    let bo = vec![
        entry(1, 0, BuildAction::Research(3)),
        entry(2, 0, BuildAction::TrainFighter),
        entry(3, 2, BuildAction::Upgrade(4)),
    ];
    let s = BuildSequence::from_build_order(&bo, 0);
    assert_eq!(s.actions(), &[ActionKey::Research(3), ActionKey::TrainFighter]);
    assert!(!s.is_empty());
    assert!(BuildSequence::from_build_order(&bo, 5).is_empty());
    let opening = BuildSequence::from_build_order_opening(&bo, 0, 10);
    assert_eq!(opening.len(), 2);
    assert_eq!(ActionKey::of(&BuildAction::UnitMorph(9)), ActionKey::UnitMorph(9));
    let direct = BuildSequence::from_actions(vec![ActionKey::Build(1)]);
    assert_eq!(direct.len(), 1);
}
