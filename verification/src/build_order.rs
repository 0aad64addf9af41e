//! Build order entries: what a player built, trained, morphed or researched,
//! and when.
use vstd::prelude::*;

verus! {

/// One production action of a build order.
#[derive(Debug, Clone, Copy, PartialEq, Eq, Structural)]
pub enum BuildAction {
    Build(u16),
    Train(u16),
    UnitMorph(u16),
    BuildingMorph(u16),
    Research(u8),
    Upgrade(u8),
    TrainFighter,
}

/// A build order entry: the frame, the acting player and the action.
#[derive(Debug, Clone, Copy, PartialEq, Eq, Structural)]
pub struct BuildOrderEntry {
    pub frame: u32,
    pub player_id: u8,
    pub action: BuildAction,
}

} // verus!
