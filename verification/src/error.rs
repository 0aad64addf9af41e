use vstd::prelude::*;

verus! {

/// Errors raised while reading map, tileset and game-data files.
#[derive(Debug)]
pub enum EngineError {
    /// CHK data shorter than a required minimum.
    ChkTooShort { expected: usize, actual: usize },
    /// A required CHK section is absent.
    MissingSection { tag: String },
    /// A CHK section is present but malformed.
    InvalidSection { tag: String, reason: String },
    /// A tileset index outside `0..8`.
    InvalidTileset(u16),
    /// A tileset file whose size is not a whole number of entries.
    TilesetDataTooShort { file: &'static str, expected: usize, actual: usize },
    /// A tile group index beyond the CV5 table.
    TileLookupOutOfBounds { group_index: usize, cv5_len: usize },
    /// A megatile index beyond the VF4 table.
    MegatileLookupOutOfBounds { index: usize, vf4_len: usize },
    /// A `.dat` file shorter than the fields that are read from it.
    DatTooShort { file: &'static str, expected: usize, actual: usize },
}

pub type Result<T> = std::result::Result<T, EngineError>;

/// Errors raised while reading a replay.
#[derive(Debug)]
pub enum ReplayError {
    /// The header section is malformed; the message says how.
    InvalidHeader(String),
}

} // verus!
