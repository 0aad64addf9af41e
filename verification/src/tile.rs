//! Map tiles (32x32 pixels) and mini-tiles (8x8 pixels) with their flag bits.
use vstd::prelude::*;

verus! {

/// Bit values of the runtime tile flags (a tile's `flags` word).
pub struct TileFlags;

impl TileFlags {
    pub const WALKABLE: u16 = 0x0001;
    pub const UNWALKABLE: u16 = 0x0004;
    pub const PROVIDES_COVER: u16 = 0x0010;
    pub const HAS_CREEP: u16 = 0x0040;
    pub const UNBUILDABLE: u16 = 0x0080;
    pub const VERY_HIGH: u16 = 0x0100;
    pub const MIDDLE: u16 = 0x0200;
    pub const HIGH: u16 = 0x0400;
    pub const OCCUPIED: u16 = 0x0800;
    pub const PARTIALLY_WALKABLE: u16 = 0x2000;
    /// Every defined flag bit.
    pub const ALL: u16 = 0x2FD5;
}

/// Whether every bit of `bit` is set in `flags`.
pub open spec fn has(flags: u16, bit: u16) -> bool {
    flags & bit == bit
}

/// Ground height level.
#[derive(Debug, Clone, Copy, PartialEq, Eq, Structural, PartialOrd, Ord)]
pub enum GroundHeight {
    Low,
    Middle,
    High,
    VeryHigh,
}

impl GroundHeight {
    /// The level as a number: low 0, middle 1, high 2, very high 3.
    pub fn level(self) -> (r: u8)
        ensures
            r == match self {
                GroundHeight::Low => 0u8,
                GroundHeight::Middle => 1u8,
                GroundHeight::High => 2u8,
                GroundHeight::VeryHigh => 3u8,
            },
    {
        match self {
            GroundHeight::Low => 0,
            GroundHeight::Middle => 1,
            GroundHeight::High => 2,
            GroundHeight::VeryHigh => 3,
        }
    }
}

/// Height of a tile's flags: very high, high, middle (first that is set), else low.
pub open spec fn tile_height_of(flags: u16) -> GroundHeight {
    if has(flags, TileFlags::VERY_HIGH) {
        GroundHeight::VeryHigh
    } else if has(flags, TileFlags::HIGH) {
        GroundHeight::High
    } else if has(flags, TileFlags::MIDDLE) {
        GroundHeight::Middle
    } else {
        GroundHeight::Low
    }
}

/// A map tile.
#[derive(Debug, Clone, Copy, PartialEq, Eq, Structural)]
pub struct Tile {
    pub flags: u16,
    pub raw_tile_id: u16,
}

impl Tile {
    pub fn is_walkable(self) -> (r: bool)
        ensures
            r == has(self.flags, TileFlags::WALKABLE),
    {
        self.flags & TileFlags::WALKABLE == TileFlags::WALKABLE
    }

    pub fn is_unwalkable(self) -> (r: bool)
        ensures
            r == has(self.flags, TileFlags::UNWALKABLE),
    {
        self.flags & TileFlags::UNWALKABLE == TileFlags::UNWALKABLE
    }

    pub fn is_partially_walkable(self) -> (r: bool)
        ensures
            r == has(self.flags, TileFlags::PARTIALLY_WALKABLE),
    {
        self.flags & TileFlags::PARTIALLY_WALKABLE == TileFlags::PARTIALLY_WALKABLE
    }

    /// Very high takes precedence over high, high over middle.
    pub fn ground_height(self) -> (r: GroundHeight)
        ensures
            r == tile_height_of(self.flags),
    {
        if self.flags & TileFlags::VERY_HIGH == TileFlags::VERY_HIGH {
            GroundHeight::VeryHigh
        } else if self.flags & TileFlags::HIGH == TileFlags::HIGH {
            GroundHeight::High
        } else if self.flags & TileFlags::MIDDLE == TileFlags::MIDDLE {
            GroundHeight::Middle
        } else {
            GroundHeight::Low
        }
    }

    pub fn has_creep(self) -> (r: bool)
        ensures
            r == has(self.flags, TileFlags::HAS_CREEP),
    {
        self.flags & TileFlags::HAS_CREEP == TileFlags::HAS_CREEP
    }
}

/// Height of a mini-tile's flags: very high, high, middle (first set), else low.
pub open spec fn mini_height_of(flags: u16) -> GroundHeight {
    if flags & MiniTile::VERY_HIGH != 0 {
        GroundHeight::VeryHigh
    } else if flags & MiniTile::HIGH != 0 {
        GroundHeight::High
    } else if flags & MiniTile::MIDDLE != 0 {
        GroundHeight::Middle
    } else {
        GroundHeight::Low
    }
}

/// An 8x8-pixel mini-tile; a map tile holds 4x4 of them.
#[derive(Debug, Clone, Copy, PartialEq, Eq, Structural)]
pub struct MiniTile {
    pub flags: u16,
}

impl MiniTile {
    pub const WALKABLE: u16 = 0x0001;
    pub const MIDDLE: u16 = 0x0002;
    pub const HIGH: u16 = 0x0004;
    pub const VERY_HIGH: u16 = 0x0008;

    pub fn is_walkable(self) -> (r: bool)
        ensures
            r == (self.flags & MiniTile::WALKABLE != 0),
    {
        self.flags & Self::WALKABLE != 0
    }

    pub fn ground_height(self) -> (r: GroundHeight)
        ensures
            r == mini_height_of(self.flags),
    {
        if self.flags & Self::VERY_HIGH != 0 {
            GroundHeight::VeryHigh
        } else if self.flags & Self::HIGH != 0 {
            GroundHeight::High
        } else if self.flags & Self::MIDDLE != 0 {
            GroundHeight::Middle
        } else {
            GroundHeight::Low
        }
    }
}

} // verus!
