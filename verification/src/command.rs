//! Replay commands, as far as the metadata logic and the engine read them,
//! and the engine commands they drive.
use vstd::prelude::*;

use crate::game::EngineCommand;

verus! {

/// What a hotkey command does with its group.
#[derive(Debug, Clone, Copy, PartialEq, Eq, Structural)]
pub enum HotkeyAction {
    Assign,
    Select,
}

/// A replay command.
#[derive(Debug, Clone, PartialEq, Eq)]
pub enum Command {
    Select { unit_tags: Vec<u16> },
    SelectAdd { unit_tags: Vec<u16> },
    SelectRemove { unit_tags: Vec<u16> },
    Hotkey { action: HotkeyAction, group: u8 },
    /// A right click on a position, or on a unit (`target_tag` 0 or 0xFFFF: none).
    RightClick { x: u16, y: u16, target_tag: u16 },
    /// An order with a target position or unit.
    TargetedOrder { x: u16, y: u16, order: u8, target_tag: u16 },
    Stop,
    Train { unit_type: u16 },
    Build { x: u16, y: u16, unit_type: u16 },
    UnitMorph { unit_type: u16 },
    BuildingMorph { unit_type: u16 },
    Research { tech_type: u8 },
    Upgrade { upgrade_type: u8 },
    /// The player left the game.
    LeaveGame { reason: u8 },
    /// Any other command, by its type id.
    Other { id: u8 },
}

/// A command with the frame it was issued on and the issuing player.
#[derive(Debug, Clone, PartialEq, Eq)]
pub struct GameCommand {
    pub frame: u32,
    pub player_id: u8,
    pub command: Command,
}

/// The order id of a move.
pub const ORDER_MOVE: u8 = 0x06;

/// The order id of an attack on a unit.
pub const ORDER_ATTACK_UNIT: u8 = 0x0A;

/// Whether a target tag names no unit.
pub open spec fn no_target(tag: u16) -> bool {
    tag == 0 || tag == 0xFFFF
}

/// The engine command of a replay command: selections and hotkeys as they
/// are; a right click moves, or attacks the unit clicked; a targeted order
/// moves (move order) or attacks a unit (attack order with a target);
/// stop, train, build, morphs, research and upgrades as they are; anything
/// else has none.
pub open spec fn engine_command_of(cmd: Command, r: Option<EngineCommand>) -> bool {
    match cmd {
        Command::Select { unit_tags } => r matches Some(EngineCommand::Select(t)) && t@ == unit_tags@,
        Command::SelectAdd { unit_tags } => r matches Some(EngineCommand::SelectAdd(t)) && t@
            == unit_tags@,
        Command::SelectRemove { unit_tags } => r matches Some(EngineCommand::SelectRemove(t))
            && t@ == unit_tags@,
        Command::Hotkey { action, group } => r == Some(
            match action {
                HotkeyAction::Assign => EngineCommand::HotkeyAssign { group },
                HotkeyAction::Select => EngineCommand::HotkeyRecall { group },
            },
        ),
        Command::RightClick { x, y, target_tag } => r == Some(
            if no_target(target_tag) {
                EngineCommand::Move { x, y }
            } else {
                EngineCommand::Attack { target_tag }
            },
        ),
        Command::TargetedOrder { x, y, order, target_tag } => r == (if order == ORDER_MOVE {
            Some(EngineCommand::Move { x, y })
        } else if order == ORDER_ATTACK_UNIT && !no_target(target_tag) {
            Some(EngineCommand::Attack { target_tag })
        } else {
            None
        }),
        Command::Stop => r == Some(EngineCommand::Stop),
        Command::Train { unit_type } => r == Some(EngineCommand::Train { unit_type }),
        Command::Build { x, y, unit_type } => r == Some(EngineCommand::Build { x, y, unit_type }),
        Command::UnitMorph { unit_type } => r == Some(EngineCommand::UnitMorph { unit_type }),
        Command::BuildingMorph { unit_type } => r == Some(
            EngineCommand::BuildingMorph { unit_type },
        ),
        Command::Research { tech_type } => r == Some(EngineCommand::Research { tech_type }),
        Command::Upgrade { upgrade_type } => r == Some(EngineCommand::Upgrade { upgrade_type }),
        Command::LeaveGame { .. } => r is None,
        Command::Other { .. } => r is None,
    }
}

/// A copy of a tag list.
fn copy_tags(v: &Vec<u16>) -> (r: Vec<u16>)
    ensures
        r@ == v@,
{
    let r = v.clone();
    assert(r@ =~= v@);
    r
}

/// The engine command a replay command drives, if any.
pub fn translate_command(cmd: &Command) -> (r: Option<EngineCommand>)
    ensures
        engine_command_of(*cmd, r),
{
    match cmd {
        Command::Select { unit_tags } => Some(EngineCommand::Select(copy_tags(unit_tags))),
        Command::SelectAdd { unit_tags } => Some(EngineCommand::SelectAdd(copy_tags(unit_tags))),
        Command::SelectRemove { unit_tags } => Some(
            EngineCommand::SelectRemove(copy_tags(unit_tags)),
        ),
        Command::Hotkey { action, group } => match action {
            HotkeyAction::Assign => Some(EngineCommand::HotkeyAssign { group: *group }),
            HotkeyAction::Select => Some(EngineCommand::HotkeyRecall { group: *group }),
        },
        Command::RightClick { x, y, target_tag } => {
            if *target_tag == 0 || *target_tag == 0xFFFF {
                Some(EngineCommand::Move { x: *x, y: *y })
            } else {
                Some(EngineCommand::Attack { target_tag: *target_tag })
            }
        },
        Command::TargetedOrder { x, y, order, target_tag } => {
            if *order == ORDER_MOVE {
                Some(EngineCommand::Move { x: *x, y: *y })
            } else if *order == ORDER_ATTACK_UNIT && *target_tag != 0 && *target_tag != 0xFFFF {
                Some(EngineCommand::Attack { target_tag: *target_tag })
            } else {
                None
            }
        },
        Command::Stop => Some(EngineCommand::Stop),
        Command::Train { unit_type } => Some(EngineCommand::Train { unit_type: *unit_type }),
        Command::Build { x, y, unit_type } => Some(
            EngineCommand::Build { x: *x, y: *y, unit_type: *unit_type },
        ),
        Command::UnitMorph { unit_type } => Some(EngineCommand::UnitMorph { unit_type: *unit_type }),
        Command::BuildingMorph { unit_type } => Some(
            EngineCommand::BuildingMorph { unit_type: *unit_type },
        ),
        Command::Research { tech_type } => Some(EngineCommand::Research { tech_type: *tech_type }),
        Command::Upgrade { upgrade_type } => Some(
            EngineCommand::Upgrade { upgrade_type: *upgrade_type },
        ),
        Command::LeaveGame { .. } => None,
        Command::Other { .. } => None,
    }
}

} // verus!
