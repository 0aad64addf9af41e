use bw_engine::command::{translate_command, Command, HotkeyAction};
use bw_engine::game::EngineCommand;

fn engine(c: Command) -> Option<EngineCommand> {
    translate_command(&c)
}

#[test]
fn command_selections_and_hotkeys() {
    match engine(Command::Select { unit_tags: vec![1, 2] }) {
        Some(EngineCommand::Select(t)) => assert_eq!(t, vec![1, 2]),
        other => panic!("unexpected {:?}", other),
    }
    match engine(Command::SelectRemove { unit_tags: vec![9] }) {
        Some(EngineCommand::SelectRemove(t)) => assert_eq!(t, vec![9]),
        other => panic!("unexpected {:?}", other),
    }
    assert!(matches!(
        engine(Command::Hotkey { action: HotkeyAction::Assign, group: 3 }),
        Some(EngineCommand::HotkeyAssign { group: 3 })
    ));
    assert!(matches!(
        engine(Command::Hotkey { action: HotkeyAction::Select, group: 4 }),
        Some(EngineCommand::HotkeyRecall { group: 4 })
    ));
}

#[test]
fn command_clicks_and_orders() {
    assert!(matches!(
        engine(Command::RightClick { x: 10, y: 20, target_tag: 0 }),
        Some(EngineCommand::Move { x: 10, y: 20 })
    ));
    assert!(matches!(
        engine(Command::RightClick { x: 10, y: 20, target_tag: 0xFFFF }),
        Some(EngineCommand::Move { x: 10, y: 20 })
    ));
    assert!(matches!(
        engine(Command::RightClick { x: 10, y: 20, target_tag: 77 }),
        Some(EngineCommand::Attack { target_tag: 77 })
    ));
    assert!(matches!(
        engine(Command::TargetedOrder { x: 5, y: 6, order: 0x06, target_tag: 77 }),
        Some(EngineCommand::Move { x: 5, y: 6 })
    ));
    assert!(matches!(
        engine(Command::TargetedOrder { x: 5, y: 6, order: 0x0A, target_tag: 77 }),
        Some(EngineCommand::Attack { target_tag: 77 })
    ));
    assert!(engine(Command::TargetedOrder { x: 5, y: 6, order: 0x0A, target_tag: 0 }).is_none());
    assert!(engine(Command::TargetedOrder { x: 5, y: 6, order: 0x07, target_tag: 77 }).is_none());
}

#[test]
fn command_production_and_others() {
    assert!(matches!(engine(Command::Stop), Some(EngineCommand::Stop)));
    assert!(matches!(engine(Command::Train { unit_type: 7 }), Some(EngineCommand::Train { unit_type: 7 })));
    assert!(matches!(
        engine(Command::Build { x: 1, y: 2, unit_type: 111 }),
        Some(EngineCommand::Build { x: 1, y: 2, unit_type: 111 })
    ));
    assert!(matches!(engine(Command::UnitMorph { unit_type: 103 }), Some(EngineCommand::UnitMorph { unit_type: 103 })));
    assert!(matches!(
        engine(Command::BuildingMorph { unit_type: 132 }),
        Some(EngineCommand::BuildingMorph { unit_type: 132 })
    ));
    assert!(matches!(engine(Command::Research { tech_type: 3 }), Some(EngineCommand::Research { tech_type: 3 })));
    assert!(matches!(engine(Command::Upgrade { upgrade_type: 4 }), Some(EngineCommand::Upgrade { upgrade_type: 4 })));
    assert!(engine(Command::LeaveGame { reason: 1 }).is_none());
    assert!(engine(Command::Other { id: 0x37 }).is_none());
}
