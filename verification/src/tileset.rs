//! Tilesets and their CV5 (tile groups) and VF4 (mini-tile flags) files.
use vstd::prelude::*;
use crate::chk::{le_u16, read_le_u16};
use crate::error::{EngineError, Result};

verus! {

/// The eight StarCraft tilesets, indexed 0-7 in declaration order.
#[derive(Debug, Clone, Copy, PartialEq, Eq, Structural, Hash)]
pub enum Tileset {
    Badlands,
    SpacePlatform,
    Installation,
    Ashworld,
    Jungle,
    Desert,
    Arctic,
    Twilight,
}

/// The tileset with index `i` (`0 <= i < 8`).
pub open spec fn tileset_of(i: int) -> Tileset {
    if i == 0 {
        Tileset::Badlands
    } else if i == 1 {
        Tileset::SpacePlatform
    } else if i == 2 {
        Tileset::Installation
    } else if i == 3 {
        Tileset::Ashworld
    } else if i == 4 {
        Tileset::Jungle
    } else if i == 5 {
        Tileset::Desert
    } else if i == 6 {
        Tileset::Arctic
    } else {
        Tileset::Twilight
    }
}

/// Display name of a tileset.
pub open spec fn tileset_name(t: Tileset) -> Seq<char> {
    match t {
        Tileset::Badlands => "Badlands"@,
        Tileset::SpacePlatform => "Space Platform"@,
        Tileset::Installation => "Installation"@,
        Tileset::Ashworld => "Ashworld"@,
        Tileset::Jungle => "Jungle"@,
        Tileset::Desert => "Desert"@,
        Tileset::Arctic => "Arctic"@,
        Tileset::Twilight => "Twilight"@,
    }
}

/// File stem of a tileset's data files.
pub open spec fn tileset_file_stem(t: Tileset) -> Seq<char> {
    match t {
        Tileset::Badlands => "badlands"@,
        Tileset::SpacePlatform => "platform"@,
        Tileset::Installation => "install"@,
        Tileset::Ashworld => "AshWorld"@,
        Tileset::Jungle => "Jungle"@,
        Tileset::Desert => "Desert"@,
        Tileset::Arctic => "Ice"@,
        Tileset::Twilight => "Twilight"@,
    }
}

impl Tileset {
    /// The tileset of an ERA index, taken modulo 8; never fails.
    pub fn from_index(index: u16) -> (r: Result<Tileset>)
        ensures
            r matches Ok(t) && t == tileset_of((index % 8) as int),
    {
        let t = match index % 8 {
            0 => Tileset::Badlands,
            1 => Tileset::SpacePlatform,
            2 => Tileset::Installation,
            3 => Tileset::Ashworld,
            4 => Tileset::Jungle,
            5 => Tileset::Desert,
            6 => Tileset::Arctic,
            _ => Tileset::Twilight,
        };
        Ok(t)
    }

    pub fn name(self) -> (r: &'static str)
        ensures
            r@ == tileset_name(self),
    {
        match self {
            Tileset::Badlands => "Badlands",
            Tileset::SpacePlatform => "Space Platform",
            Tileset::Installation => "Installation",
            Tileset::Ashworld => "Ashworld",
            Tileset::Jungle => "Jungle",
            Tileset::Desert => "Desert",
            Tileset::Arctic => "Arctic",
            Tileset::Twilight => "Twilight",
        }
    }

    pub fn file_stem(self) -> (r: &'static str)
        ensures
            r@ == tileset_file_stem(self),
    {
        match self {
            Tileset::Badlands => "badlands",
            Tileset::SpacePlatform => "platform",
            Tileset::Installation => "install",
            Tileset::Ashworld => "AshWorld",
            Tileset::Jungle => "Jungle",
            Tileset::Desert => "Desert",
            Tileset::Arctic => "Ice",
            Tileset::Twilight => "Twilight",
        }
    }
}

/// CV5 entry size in bytes.
pub const CV5_ENTRY_SIZE: usize = 52;

/// VF4 entry size in bytes (16 mini-tile flag words).
pub const VF4_ENTRY_SIZE: usize = 32;

/// One CV5 tile group: its flags and the megatile of each of its 16 subtiles.
#[derive(Debug, Clone, Copy)]
pub struct Cv5Entry {
    pub flags: u16,
    pub mega_tile_indices: [u16; 16],
}

/// One VF4 megatile: the flags of its 4x4 mini-tiles, row-major.
#[derive(Debug, Clone, Copy)]
pub struct Vf4Entry {
    pub mini_tile_flags: [u16; 16],
}

/// Parsed tileset data.
pub struct TilesetData {
    pub cv5: Vec<Cv5Entry>,
    pub vf4: Vec<Vf4Entry>,
}

/// Whether `e` is the CV5 entry starting at byte `b`.
pub open spec fn is_cv5_entry(d: Seq<u8>, b: int, e: Cv5Entry) -> bool {
    &&& e.flags == le_u16(d, b + 2)
    &&& forall|j: int| 0 <= j < 16 ==> #[trigger] e.mega_tile_indices@[j] == le_u16(d, b + 20 + 2 * j)
}

/// Whether `e` is the VF4 entry starting at byte `b`.
pub open spec fn is_vf4_entry(d: Seq<u8>, b: int, e: Vf4Entry) -> bool {
    forall|j: int| 0 <= j < 16 ==> #[trigger] e.mini_tile_flags@[j] == le_u16(d, b + 2 * j)
}

/// Reads 16 consecutive little-endian `u16`s starting at `b`.
fn read_u16x16(d: &[u8], b: usize) -> (r: [u16; 16])
    requires
        b + 32 <= d@.len(),
    ensures
        forall|j: int| 0 <= j < 16 ==> #[trigger] r@[j] == le_u16(d@, b + 2 * j),
{
    let _n = d.len();
    let mut out: [u16; 16] = [0u16; 16];
    let mut j: usize = 0;
    while j < 16
        invariant
            j <= 16,
            b + 32 <= d@.len(),
            d@.len() <= usize::MAX,
            forall|k: int| 0 <= k < j ==> #[trigger] out@[k] == le_u16(d@, b + 2 * k),
        decreases 16 - j,
    {
        out[j] = read_le_u16(d, b + 2 * j);
        j = j + 1;
    }
    out
}

/// Parses a CV5 file: one 52-byte entry per tile group; its size must be a
/// whole number of entries.
pub fn parse_cv5(data: &[u8]) -> (r: Result<Vec<Cv5Entry>>)
    ensures
        data@.len() % 52 != 0 ==> (r matches Err(EngineError::TilesetDataTooShort { file, expected, actual })
            && file@ == "cv5"@ && expected == 52 && actual == data@.len() % 52),
        data@.len() % 52 == 0 ==> (r matches Ok(v) && v@.len() == data@.len() / 52 && forall|i: int|
            0 <= i < v@.len() ==> is_cv5_entry(data@, 52 * i, #[trigger] v@[i])),
{
    if data.len() % CV5_ENTRY_SIZE != 0 {
        return Err(
            EngineError::TilesetDataTooShort {
                file: "cv5",
                expected: CV5_ENTRY_SIZE,
                actual: data.len() % CV5_ENTRY_SIZE,
            },
        );
    }
    let count = data.len() / CV5_ENTRY_SIZE;
    let mut entries: Vec<Cv5Entry> = Vec::new();
    let mut i: usize = 0;
    while i < count
        invariant
            i <= count,
            count == data@.len() / 52,
            data@.len() % 52 == 0,
            entries@.len() == i,
            forall|k: int| 0 <= k < i ==> is_cv5_entry(data@, 52 * k, #[trigger] entries@[k]),
        decreases count - i,
    {
        let dlen = data.len();
        assert(52 * i + 52 <= dlen) by (nonlinear_arith)
            requires
                i < count,
                count == dlen / 52,
        ;
        let base = i * CV5_ENTRY_SIZE;
        let flags = read_le_u16(data, base + 2);
        let mega_tile_indices = read_u16x16(data, base + 20);
        entries.push(Cv5Entry { flags, mega_tile_indices });
        i = i + 1;
    }
    Ok(entries)
}

/// Parses a VF4 file: one 32-byte entry per megatile; its size must be a
/// whole number of entries.
pub fn parse_vf4(data: &[u8]) -> (r: Result<Vec<Vf4Entry>>)
    ensures
        data@.len() % 32 != 0 ==> (r matches Err(EngineError::TilesetDataTooShort { file, expected, actual })
            && file@ == "vf4"@ && expected == 32 && actual == data@.len() % 32),
        data@.len() % 32 == 0 ==> (r matches Ok(v) && v@.len() == data@.len() / 32 && forall|i: int|
            0 <= i < v@.len() ==> is_vf4_entry(data@, 32 * i, #[trigger] v@[i])),
{
    if data.len() % VF4_ENTRY_SIZE != 0 {
        return Err(
            EngineError::TilesetDataTooShort {
                file: "vf4",
                expected: VF4_ENTRY_SIZE,
                actual: data.len() % VF4_ENTRY_SIZE,
            },
        );
    }
    let count = data.len() / VF4_ENTRY_SIZE;
    let mut entries: Vec<Vf4Entry> = Vec::new();
    let mut i: usize = 0;
    while i < count
        invariant
            i <= count,
            count == data@.len() / 32,
            data@.len() % 32 == 0,
            entries@.len() == i,
            forall|k: int| 0 <= k < i ==> is_vf4_entry(data@, 32 * k, #[trigger] entries@[k]),
        decreases count - i,
    {
        let dlen = data.len();
        assert(32 * i + 32 <= dlen) by (nonlinear_arith)
            requires
                i < count,
                count == dlen / 32,
        ;
        let base = i * VF4_ENTRY_SIZE;
        let mini_tile_flags = read_u16x16(data, base);
        entries.push(Vf4Entry { mini_tile_flags });
        i = i + 1;
    }
    Ok(entries)
}

/// Group index of a raw tile id (bits 4-14).
pub open spec fn group_of(tile_id: u16) -> int {
    ((tile_id >> 4u16) & 0x7FFu16) as int
}

/// Subtile index of a raw tile id (bits 0-3).
pub open spec fn subtile_of(tile_id: u16) -> int {
    (tile_id & 0xFu16) as int
}

/// A tile id built from a group index (11 bits) and a subtile (4 bits)
/// gives both back.
pub proof fn lemma_tile_id_fields(group: u16, subtile: u16)
    requires
        group < 0x800,
        subtile < 0x10,
    ensures
        group_of(((group << 4u16) | subtile) as u16) == group,
        subtile_of(((group << 4u16) | subtile) as u16) == subtile,
{
    assert((((group << 4u16) | subtile) >> 4u16) & 0x7FFu16 == group) by (bit_vector)
        requires
            group < 0x800,
            subtile < 0x10,
    ;
    assert(((group << 4u16) | subtile) & 0xFu16 == subtile) by (bit_vector)
        requires
            subtile < 0x10,
    ;
}

/// Abstract tileset: per CV5 group its flags and 16 megatile indices, and
/// per VF4 megatile its 16 mini-tile flags.
pub ghost struct TilesetModel {
    pub groups: Seq<(u16, Seq<u16>)>,
    pub megatiles: Seq<Seq<u16>>,
}

/// The abstract content of parsed tileset data.
pub open spec fn ts_model(ts: &TilesetData) -> TilesetModel {
    TilesetModel {
        groups: ts.cv5@.map_values(|e: Cv5Entry| (e.flags, e.mega_tile_indices@)),
        megatiles: ts.vf4@.map_values(|e: Vf4Entry| e.mini_tile_flags@),
    }
}

/// The tileset described by raw CV5 and VF4 bytes (whole entries only).
pub open spec fn ts_model_bytes(cv5: Seq<u8>, vf4: Seq<u8>) -> TilesetModel {
    TilesetModel {
        groups: Seq::new(
            cv5.len() / 52,
            |g: int|
                (
                    le_u16(cv5, 52 * g + 2) as u16,
                    Seq::new(16, |j: int| le_u16(cv5, 52 * g + 20 + 2 * j) as u16),
                ),
        ),
        megatiles: Seq::new(
            vf4.len() / 32,
            |m: int| Seq::new(16, |j: int| le_u16(vf4, 32 * m + 2 * j) as u16),
        ),
    }
}

impl TilesetData {
    /// Parses the CV5 file, then the VF4 file; the first failure is returned.
    pub fn from_bytes(cv5_data: &[u8], vf4_data: &[u8]) -> (r: Result<TilesetData>)
        ensures
            cv5_data@.len() % 52 != 0 ==> (r matches Err(EngineError::TilesetDataTooShort { file, .. })
                && file@ == "cv5"@),
            cv5_data@.len() % 52 == 0 && vf4_data@.len() % 32 != 0 ==> (r matches Err(
                EngineError::TilesetDataTooShort { file, .. },
            ) && file@ == "vf4"@),
            cv5_data@.len() % 52 == 0 && vf4_data@.len() % 32 == 0 ==> (r matches Ok(t)
                && t.cv5@.len() == cv5_data@.len() / 52 && t.vf4@.len() == vf4_data@.len() / 32
                && (forall|i: int| 0 <= i < t.cv5@.len() ==> is_cv5_entry(cv5_data@, 52 * i, #[trigger] t.cv5@[i]))
                && (forall|i: int| 0 <= i < t.vf4@.len() ==> is_vf4_entry(vf4_data@, 32 * i, #[trigger] t.vf4@[i]))
                && ts_model(&t) == ts_model_bytes(cv5_data@, vf4_data@)),
    {
        let cv5 = parse_cv5(cv5_data)?;
        let vf4 = parse_vf4(vf4_data)?;
        let t = TilesetData { cv5, vf4 };
        proof {
            let a = ts_model(&t);
            let b = ts_model_bytes(cv5_data@, vf4_data@);
            assert forall|g: int| 0 <= g < a.groups.len() implies #[trigger] a.groups[g] == b.groups[g] by {
                assert(is_cv5_entry(cv5_data@, 52 * g, t.cv5@[g]));
                assert(a.groups[g].1 =~= b.groups[g].1);
            }
            assert forall|m: int| 0 <= m < a.megatiles.len() implies #[trigger] a.megatiles[m] == b.megatiles[m] by {
                assert(is_vf4_entry(vf4_data@, 32 * m, t.vf4@[m]));
                assert(a.megatiles[m] =~= b.megatiles[m]);
            }
            assert(a.groups =~= b.groups);
            assert(a.megatiles =~= b.megatiles);
        }
        Ok(t)
    }

    /// Megatile of a raw tile id: its group's entry for its subtile, or `None`
    /// when the group is beyond the CV5 table.
    pub fn megatile_index(&self, tile_id: u16) -> (r: Option<u16>)
        ensures
            group_of(tile_id) < self.cv5@.len() ==> r == Some(
                self.cv5@[group_of(tile_id)].mega_tile_indices@[subtile_of(tile_id)],
            ),
            group_of(tile_id) >= self.cv5@.len() ==> r is None,
    {
        let group_index = ((tile_id >> 4) & 0x7FF) as usize;
        let subtile_index = (tile_id & 0xF) as usize;
        assert(tile_id & 0xFu16 < 16) by (bit_vector);
        if group_index < self.cv5.len() {
            Some(self.cv5[group_index].mega_tile_indices[subtile_index])
        } else {
            None
        }
    }

    /// Mini-tile flags of a megatile, or `MegatileLookupOutOfBounds`.
    pub fn mini_tile_flags(&self, megatile_idx: u16) -> (r: Result<&[u16; 16]>)
        ensures
            megatile_idx < self.vf4@.len() ==> r == Ok::<&[u16; 16], EngineError>(
                &self.vf4@[megatile_idx as int].mini_tile_flags,
            ),
            megatile_idx >= self.vf4@.len() ==> (r matches Err(
                EngineError::MegatileLookupOutOfBounds { index, vf4_len },
            ) && index == megatile_idx && vf4_len == self.vf4@.len()),
    {
        let idx = megatile_idx as usize;
        if idx < self.vf4.len() {
            Ok(&self.vf4[idx].mini_tile_flags)
        } else {
            Err(EngineError::MegatileLookupOutOfBounds { index: idx, vf4_len: self.vf4.len() })
        }
    }

    /// CV5 flags of a raw tile id's group, or 0 when the group is out of range.
    pub fn cv5_flags(&self, tile_id: u16) -> (r: u16)
        ensures
            group_of(tile_id) < self.cv5@.len() ==> r == self.cv5@[group_of(tile_id)].flags,
            group_of(tile_id) >= self.cv5@.len() ==> r == 0,
    {
        let group_index = ((tile_id >> 4) & 0x7FF) as usize;
        if group_index < self.cv5.len() {
            self.cv5[group_index].flags
        } else {
            0
        }
    }
}

} // verus!
