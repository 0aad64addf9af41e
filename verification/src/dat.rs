//! Game data tables parsed from `units.dat`, `flingy.dat` and `weapons.dat`.
//! Each file stores its fields as parallel arrays, one entry per type.
use vstd::prelude::*;
use crate::chk::{le_u16, le_u32, read_le_u16, read_le_u32};
use crate::error::{EngineError, Result};

verus! {

pub const FLINGY_COUNT: usize = 209;
pub const UNIT_TYPE_COUNT: usize = 228;
pub const WEAPON_COUNT: usize = 130;

/// Movement parameters of one flingy type.
#[derive(Debug, Clone, Copy, Default, PartialEq, Eq, Structural)]
pub struct FlingyType {
    pub top_speed: i32,
    pub acceleration: i16,
    pub halt_distance: i32,
    pub turn_rate: u8,
    pub movement_type: u8,
}

/// Static data of one unit type.
#[derive(Debug, Clone, Copy, Default, PartialEq, Eq, Structural)]
pub struct UnitType {
    pub flingy_id: u8,
    /// 228 means "no turret".
    pub turret_unit_type: u16,
    /// Hit points in fp8.
    pub hitpoints: i32,
    /// 130 means "no weapon".
    pub ground_weapon: u8,
    pub max_ground_hits: u8,
    /// 130 means "no weapon".
    pub air_weapon: u8,
    pub max_air_hits: u8,
    pub armor: u8,
    /// Frames to build.
    pub build_time: u16,
    pub is_building: bool,
}

/// Terran Command Center unit type: turret subunits belong only to types below it.
pub const COMMAND_CENTER_ID: u16 = 117;

/// Static data of one weapon type.
#[derive(Debug, Clone, Copy, Default, PartialEq, Eq, Structural)]
pub struct WeaponType {
    pub damage_amount: u16,
    pub damage_bonus: u16,
    pub cooldown: u8,
    pub damage_factor: u8,
    /// In pixels.
    pub max_range: u32,
}

/// Parsed game data tables.
pub struct GameData {
    pub flingy_types: Vec<FlingyType>,
    pub unit_types: Vec<UnitType>,
    pub weapon_types: Vec<WeaponType>,
}

/// Two's-complement `i16` at `p`.
pub open spec fn le_i16(d: Seq<u8>, p: int) -> i16 {
    le_u16(d, p) as u16 as i16
}

/// Two's-complement `i32` at `p`.
pub open spec fn le_i32(d: Seq<u8>, p: int) -> i32 {
    le_u32(d, p) as u32 as i32
}

fn read_i16_le(d: &[u8], p: usize) -> (r: i16)
    requires
        p + 2 <= d@.len(),
    ensures
        r == le_i16(d@, p as int),
{
    read_le_u16(d, p) as i16
}

fn read_i32_le(d: &[u8], p: usize) -> (r: i32)
    requires
        p + 4 <= d@.len(),
    ensures
        r == le_i32(d@, p as int),
{
    read_le_u32(d, p) as i32
}

// flingy.dat layout
pub const FLINGY_DAT_MIN_SIZE: usize = 3135;
pub const FLINGY_SPRITE_OFFSET: usize = 0;
pub const FLINGY_TOP_SPEED_OFFSET: usize = FLINGY_SPRITE_OFFSET + FLINGY_COUNT * 2;
pub const FLINGY_ACCEL_OFFSET: usize = FLINGY_TOP_SPEED_OFFSET + FLINGY_COUNT * 4;
pub const FLINGY_HALT_OFFSET: usize = FLINGY_ACCEL_OFFSET + FLINGY_COUNT * 2;
pub const FLINGY_TURN_RATE_OFFSET: usize = FLINGY_HALT_OFFSET + FLINGY_COUNT * 4;
pub const FLINGY_UNUSED_OFFSET: usize = FLINGY_TURN_RATE_OFFSET + FLINGY_COUNT;
pub const FLINGY_MOVE_TYPE_OFFSET: usize = FLINGY_UNUSED_OFFSET + FLINGY_COUNT;

/// Flingy entry `i` of `flingy.dat`.
pub open spec fn flingy_entry(d: Seq<u8>, i: int) -> FlingyType {
    FlingyType {
        top_speed: le_i32(d, FLINGY_TOP_SPEED_OFFSET + i * 4),
        acceleration: le_i16(d, FLINGY_ACCEL_OFFSET + i * 2),
        halt_distance: le_i32(d, FLINGY_HALT_OFFSET + i * 4),
        turn_rate: d[FLINGY_TURN_RATE_OFFSET + i],
        movement_type: d[FLINGY_MOVE_TYPE_OFFSET + i],
    }
}

/// Parses `flingy.dat`: all 209 entries, or `DatTooShort` below 3135 bytes.
pub fn parse_flingy_dat(data: &[u8]) -> (r: Result<Vec<FlingyType>>)
    ensures
        data@.len() < FLINGY_DAT_MIN_SIZE ==> (r matches Err(EngineError::DatTooShort { file, expected, actual })
            && file@ == "flingy.dat"@ && expected == FLINGY_DAT_MIN_SIZE && actual == data@.len()),
        data@.len() >= FLINGY_DAT_MIN_SIZE ==> (r matches Ok(v) && v@.len() == FLINGY_COUNT && forall|i: int|
            0 <= i < FLINGY_COUNT ==> #[trigger] v@[i] == flingy_entry(data@, i)),
{
    if data.len() < FLINGY_DAT_MIN_SIZE {
        return Err(
            EngineError::DatTooShort {
                file: "flingy.dat",
                expected: FLINGY_DAT_MIN_SIZE,
                actual: data.len(),
            },
        );
    }
    let mut types: Vec<FlingyType> = Vec::new();
    let mut i: usize = 0;
    while i < FLINGY_COUNT
        invariant
            i <= FLINGY_COUNT,
            data@.len() >= FLINGY_DAT_MIN_SIZE,
            types@.len() == i,
            forall|j: int| 0 <= j < i ==> #[trigger] types@[j] == flingy_entry(data@, j),
        decreases FLINGY_COUNT - i,
    {
        types.push(
            FlingyType {
                top_speed: read_i32_le(data, FLINGY_TOP_SPEED_OFFSET + i * 4),
                acceleration: read_i16_le(data, FLINGY_ACCEL_OFFSET + i * 2),
                halt_distance: read_i32_le(data, FLINGY_HALT_OFFSET + i * 4),
                turn_rate: data[FLINGY_TURN_RATE_OFFSET + i],
                movement_type: data[FLINGY_MOVE_TYPE_OFFSET + i],
            },
        );
        i = i + 1;
    }
    Ok(types)
}

// units.dat layout: parallel arrays of 228 entries unless noted
pub const U: usize = UNIT_TYPE_COUNT;
pub const UNITS_COUNT: usize = 106;
pub const BUILDINGS_COUNT: usize = 96;
pub const U_FLINGY: usize = 0;
pub const U_TURRET: usize = U_FLINGY + U;
pub const U_SUBUNIT2: usize = U_TURRET + U * 2;
pub const U_INFESTATION: usize = U_SUBUNIT2 + U * 2;
pub const U_CONSTRUCTION_ANIM: usize = U_INFESTATION + BUILDINGS_COUNT * 2;
pub const U_UNIT_DIRECTION: usize = U_CONSTRUCTION_ANIM + U * 4;
pub const U_HAS_SHIELD: usize = U_UNIT_DIRECTION + U;
pub const U_SHIELD_POINTS: usize = U_HAS_SHIELD + U;
pub const U_HITPOINTS: usize = U_SHIELD_POINTS + U * 2;
pub const U_ELEVATION: usize = U_HITPOINTS + U * 4;
pub const U_UNKNOWN1: usize = U_ELEVATION + U;
pub const U_SUBLABEL: usize = U_UNKNOWN1 + U;
pub const U_COMP_AI_IDLE: usize = U_SUBLABEL + U;
pub const U_HUMAN_AI_IDLE: usize = U_COMP_AI_IDLE + U;
pub const U_RETURN_IDLE: usize = U_HUMAN_AI_IDLE + U;
pub const U_ATTACK_UNIT: usize = U_RETURN_IDLE + U;
pub const U_ATTACK_MOVE: usize = U_ATTACK_UNIT + U;
pub const U_GROUND_WEAPON: usize = U_ATTACK_MOVE + U;
pub const U_MAX_GROUND_HITS: usize = U_GROUND_WEAPON + U;
pub const U_AIR_WEAPON: usize = U_MAX_GROUND_HITS + U;
pub const U_MAX_AIR_HITS: usize = U_AIR_WEAPON + U;
pub const U_AI_INTERNAL: usize = U_MAX_AIR_HITS + U;
pub const U_FLAGS: usize = U_AI_INTERNAL + U;
pub const U_TARGET_ACQ_RANGE: usize = U_FLAGS + U * 4;
pub const U_SIGHT_RANGE: usize = U_TARGET_ACQ_RANGE + U;
pub const U_ARMOR_UPGRADE: usize = U_SIGHT_RANGE + U;
pub const U_UNIT_SIZE: usize = U_ARMOR_UPGRADE + U;
pub const U_ARMOR: usize = U_UNIT_SIZE + U;
pub const U_RIGHT_CLICK: usize = U_ARMOR + U;
pub const U_READY_SOUND: usize = U_RIGHT_CLICK + U;
pub const U_FIRST_WHAT: usize = U_READY_SOUND + UNITS_COUNT * 2;
pub const U_LAST_WHAT: usize = U_FIRST_WHAT + U * 2;
pub const U_FIRST_PISSED: usize = U_LAST_WHAT + U * 2;
pub const U_LAST_PISSED: usize = U_FIRST_PISSED + UNITS_COUNT * 2;
pub const U_FIRST_YES: usize = U_LAST_PISSED + UNITS_COUNT * 2;
pub const U_LAST_YES: usize = U_FIRST_YES + UNITS_COUNT * 2;
pub const U_PLACEMENT_SIZE: usize = U_LAST_YES + UNITS_COUNT * 2;
pub const U_ADDON_POS: usize = U_PLACEMENT_SIZE + U * 4;
pub const U_DIMENSIONS: usize = U_ADDON_POS + BUILDINGS_COUNT * 4;
pub const U_PORTRAIT: usize = U_DIMENSIONS + U * 8;
pub const U_MINERAL_COST: usize = U_PORTRAIT + U * 2;
pub const U_GAS_COST: usize = U_MINERAL_COST + U * 2;
pub const U_BUILD_TIME: usize = U_GAS_COST + U * 2;
/// Bytes needed to read every field through the build times.
pub const UNITS_DAT_MIN_SIZE: usize = U_BUILD_TIME + U * 2;
/// Building bit of the units.dat flags field.
pub const FLAG_BUILDING: u32 = 0x0000_0001;

/// Unit entry `i` of a `units.dat` that holds every field.
pub open spec fn unit_entry_full(d: Seq<u8>, i: int) -> UnitType {
    UnitType {
        flingy_id: d[U_FLINGY + i],
        turret_unit_type: le_u16(d, U_TURRET + i * 2) as u16,
        hitpoints: le_i32(d, U_HITPOINTS + i * 4),
        ground_weapon: d[U_GROUND_WEAPON + i],
        max_ground_hits: d[U_MAX_GROUND_HITS + i],
        air_weapon: d[U_AIR_WEAPON + i],
        max_air_hits: d[U_MAX_AIR_HITS + i],
        armor: d[U_ARMOR + i],
        build_time: le_u16(d, U_BUILD_TIME + i * 2) as u16,
        is_building: le_u32(d, U_FLAGS + i * 4) % 2 == 1,
    }
}

/// Unit entry `i` of a `units.dat` that holds only the flingy field:
/// no turret (228), no weapons (130), everything else zero.
pub open spec fn unit_entry_minimal(d: Seq<u8>, i: int) -> UnitType {
    UnitType {
        flingy_id: d[U_FLINGY + i],
        turret_unit_type: 228,
        hitpoints: 0,
        ground_weapon: 130,
        max_ground_hits: 0,
        air_weapon: 130,
        max_air_hits: 0,
        armor: 0,
        build_time: 0,
        is_building: false,
    }
}

/// Parses `units.dat`: every field when the file holds all of them, only the
/// flingy ids (with defaults) when it holds at least those, else `DatTooShort`.
pub fn parse_units_dat(data: &[u8]) -> (r: Result<Vec<UnitType>>)
    ensures
        data@.len() < U ==> (r matches Err(EngineError::DatTooShort { file, expected, actual })
            && file@ == "units.dat"@ && expected == U && actual == data@.len()),
        data@.len() >= U ==> (r matches Ok(v) && v@.len() == U && forall|i: int|
            0 <= i < U ==> #[trigger] v@[i] == (if data@.len() >= UNITS_DAT_MIN_SIZE {
                unit_entry_full(data@, i)
            } else {
                unit_entry_minimal(data@, i)
            })),
{
    if data.len() < U {
        return Err(EngineError::DatTooShort { file: "units.dat", expected: U, actual: data.len() });
    }
    let has_full = data.len() >= UNITS_DAT_MIN_SIZE;
    let mut types: Vec<UnitType> = Vec::new();
    let mut i: usize = 0;
    while i < U
        invariant
            i <= U,
            data@.len() >= U,
            has_full == (data@.len() >= UNITS_DAT_MIN_SIZE),
            types@.len() == i,
            forall|j: int|
                0 <= j < i ==> #[trigger] types@[j] == (if has_full {
                    unit_entry_full(data@, j)
                } else {
                    unit_entry_minimal(data@, j)
                }),
        decreases U - i,
    {
        let flingy_id = data[U_FLINGY + i];
        let t = if has_full {
            let flags = read_le_u32(data, U_FLAGS + i * 4);
            assert(flags & FLAG_BUILDING != 0 <==> flags % 2 == 1) by (bit_vector);
            UnitType {
                flingy_id,
                turret_unit_type: read_le_u16(data, U_TURRET + i * 2),
                hitpoints: read_i32_le(data, U_HITPOINTS + i * 4),
                ground_weapon: data[U_GROUND_WEAPON + i],
                max_ground_hits: data[U_MAX_GROUND_HITS + i],
                air_weapon: data[U_AIR_WEAPON + i],
                max_air_hits: data[U_MAX_AIR_HITS + i],
                armor: data[U_ARMOR + i],
                build_time: read_le_u16(data, U_BUILD_TIME + i * 2),
                is_building: flags & FLAG_BUILDING != 0,
            }
        } else {
            UnitType {
                flingy_id,
                turret_unit_type: 228,
                hitpoints: 0,
                ground_weapon: 130,
                max_ground_hits: 0,
                air_weapon: 130,
                max_air_hits: 0,
                armor: 0,
                build_time: 0,
                is_building: false,
            }
        };
        types.push(t);
        i = i + 1;
    }
    Ok(types)
}

// weapons.dat layout: parallel arrays of 130 entries
pub const W: usize = WEAPON_COUNT;
pub const W_LABEL: usize = 0;
pub const W_FLINGY: usize = W_LABEL + W * 2;
pub const W_UNUSED: usize = W_FLINGY + W * 4;
pub const W_TARGET_FLAGS: usize = W_UNUSED + W;
pub const W_MIN_RANGE: usize = W_TARGET_FLAGS + W * 2;
pub const W_MAX_RANGE: usize = W_MIN_RANGE + W * 4;
pub const W_DAMAGE_UPGRADE: usize = W_MAX_RANGE + W * 4;
pub const W_DAMAGE_TYPE: usize = W_DAMAGE_UPGRADE + W;
pub const W_BULLET_TYPE: usize = W_DAMAGE_TYPE + W;
pub const W_LIFETIME: usize = W_BULLET_TYPE + W;
pub const W_HIT_TYPE: usize = W_LIFETIME + W;
pub const W_INNER_SPLASH: usize = W_HIT_TYPE + W;
pub const W_MEDIUM_SPLASH: usize = W_INNER_SPLASH + W * 2;
pub const W_OUTER_SPLASH: usize = W_MEDIUM_SPLASH + W * 2;
pub const W_DAMAGE_AMOUNT: usize = W_OUTER_SPLASH + W * 2;
pub const W_DAMAGE_BONUS: usize = W_DAMAGE_AMOUNT + W * 2;
pub const W_COOLDOWN: usize = W_DAMAGE_BONUS + W * 2;
pub const W_BULLET_COUNT: usize = W_COOLDOWN + W;
pub const WEAPONS_DAT_MIN_SIZE: usize = W_BULLET_COUNT + W;

/// Weapon entry `i` of `weapons.dat`; the bullet count serves as damage factor.
pub open spec fn weapon_entry(d: Seq<u8>, i: int) -> WeaponType {
    WeaponType {
        damage_amount: le_u16(d, W_DAMAGE_AMOUNT + i * 2) as u16,
        damage_bonus: le_u16(d, W_DAMAGE_BONUS + i * 2) as u16,
        cooldown: d[W_COOLDOWN + i],
        damage_factor: d[W_BULLET_COUNT + i],
        max_range: le_u32(d, W_MAX_RANGE + i * 4) as u32,
    }
}

/// Parses `weapons.dat`: all 130 entries, or `DatTooShort` when a field is missing.
pub fn parse_weapons_dat(data: &[u8]) -> (r: Result<Vec<WeaponType>>)
    ensures
        data@.len() < WEAPONS_DAT_MIN_SIZE ==> (r matches Err(EngineError::DatTooShort { file, expected, actual })
            && file@ == "weapons.dat"@ && expected == WEAPONS_DAT_MIN_SIZE && actual == data@.len()),
        data@.len() >= WEAPONS_DAT_MIN_SIZE ==> (r matches Ok(v) && v@.len() == W && forall|i: int|
            0 <= i < W ==> #[trigger] v@[i] == weapon_entry(data@, i)),
{
    if data.len() < WEAPONS_DAT_MIN_SIZE {
        return Err(
            EngineError::DatTooShort {
                file: "weapons.dat",
                expected: WEAPONS_DAT_MIN_SIZE,
                actual: data.len(),
            },
        );
    }
    let mut types: Vec<WeaponType> = Vec::new();
    let mut i: usize = 0;
    while i < W
        invariant
            i <= W,
            data@.len() >= WEAPONS_DAT_MIN_SIZE,
            types@.len() == i,
            forall|j: int| 0 <= j < i ==> #[trigger] types@[j] == weapon_entry(data@, j),
        decreases W - i,
    {
        types.push(
            WeaponType {
                damage_amount: read_le_u16(data, W_DAMAGE_AMOUNT + i * 2),
                damage_bonus: read_le_u16(data, W_DAMAGE_BONUS + i * 2),
                cooldown: data[W_COOLDOWN + i],
                damage_factor: data[W_BULLET_COUNT + i],
                max_range: read_le_u32(data, W_MAX_RANGE + i * 4),
            },
        );
        i = i + 1;
    }
    Ok(types)
}

/// All 209 flingy entries of a `flingy.dat`.
pub open spec fn flingy_table(d: Seq<u8>) -> Seq<FlingyType> {
    Seq::new(FLINGY_COUNT as nat, |i: int| flingy_entry(d, i))
}

/// All 228 unit entries of a `units.dat` (full or minimal layout).
pub open spec fn unit_table(d: Seq<u8>) -> Seq<UnitType> {
    Seq::new(
        U as nat,
        |i: int|
            if d.len() >= UNITS_DAT_MIN_SIZE {
                unit_entry_full(d, i)
            } else {
                unit_entry_minimal(d, i)
            },
    )
}

/// All 130 weapon entries of a `weapons.dat`.
pub open spec fn weapon_table(d: Seq<u8>) -> Seq<WeaponType> {
    Seq::new(W as nat, |i: int| weapon_entry(d, i))
}

impl GameData {
    /// Parses `flingy.dat` then `units.dat` (the first failure is returned);
    /// the weapon table is left empty.
    pub fn from_dat(units_dat: &[u8], flingy_dat: &[u8]) -> (r: Result<GameData>)
        ensures
            flingy_dat@.len() < FLINGY_DAT_MIN_SIZE ==> (r matches Err(EngineError::DatTooShort { file, .. })
                && file@ == "flingy.dat"@),
            flingy_dat@.len() >= FLINGY_DAT_MIN_SIZE && units_dat@.len() < U ==> (r matches Err(
                EngineError::DatTooShort { file, .. },
            ) && file@ == "units.dat"@),
            flingy_dat@.len() >= FLINGY_DAT_MIN_SIZE && units_dat@.len() >= U ==> (r matches Ok(g)
                && g.flingy_types@ == flingy_table(flingy_dat@) && g.unit_types@ == unit_table(
                units_dat@,
            ) && g.weapon_types@.len() == 0),
    {
        let flingy_types = parse_flingy_dat(flingy_dat)?;
        let unit_types = parse_units_dat(units_dat)?;
        assert(flingy_types@ =~= flingy_table(flingy_dat@));
        assert(unit_types@ =~= unit_table(units_dat@));
        Ok(GameData { flingy_types, unit_types, weapon_types: Vec::new() })
    }

    /// Parses `flingy.dat`, `units.dat` then `weapons.dat` (the first failure is returned).
    pub fn from_dat_full(units_dat: &[u8], flingy_dat: &[u8], weapons_dat: &[u8]) -> (r: Result<GameData>)
        ensures
            flingy_dat@.len() < FLINGY_DAT_MIN_SIZE ==> (r matches Err(EngineError::DatTooShort { file, .. })
                && file@ == "flingy.dat"@),
            flingy_dat@.len() >= FLINGY_DAT_MIN_SIZE && units_dat@.len() < U ==> (r matches Err(
                EngineError::DatTooShort { file, .. },
            ) && file@ == "units.dat"@),
            flingy_dat@.len() >= FLINGY_DAT_MIN_SIZE && units_dat@.len() >= U
                && weapons_dat@.len() < WEAPONS_DAT_MIN_SIZE ==> (r matches Err(
                EngineError::DatTooShort { file, .. },
            ) && file@ == "weapons.dat"@),
            flingy_dat@.len() >= FLINGY_DAT_MIN_SIZE && units_dat@.len() >= U
                && weapons_dat@.len() >= WEAPONS_DAT_MIN_SIZE ==> (r matches Ok(g)
                && g.flingy_types@ == flingy_table(flingy_dat@) && g.unit_types@ == unit_table(
                units_dat@,
            ) && g.weapon_types@ == weapon_table(weapons_dat@)),
    {
        let flingy_types = parse_flingy_dat(flingy_dat)?;
        let unit_types = parse_units_dat(units_dat)?;
        let weapon_types = parse_weapons_dat(weapons_dat)?;
        assert(flingy_types@ =~= flingy_table(flingy_dat@));
        assert(unit_types@ =~= unit_table(units_dat@));
        assert(weapon_types@ =~= weapon_table(weapons_dat@));
        Ok(GameData { flingy_types, unit_types, weapon_types })
    }

    /// Flingy data of a unit type, through the unit's flingy id.
    pub fn flingy_for_unit(&self, unit_type: u16) -> (r: Option<&FlingyType>)
        ensures
            (unit_type < self.unit_types@.len() && self.unit_types@[unit_type as int].flingy_id
                < self.flingy_types@.len()) ==> r == Some(
                &self.flingy_types@[self.unit_types@[unit_type as int].flingy_id as int],
            ),
            !(unit_type < self.unit_types@.len() && self.unit_types@[unit_type as int].flingy_id
                < self.flingy_types@.len()) ==> r is None,
    {
        let ut = self.unit_type(unit_type)?;
        let f = ut.flingy_id as usize;
        if f < self.flingy_types.len() {
            Some(&self.flingy_types[f])
        } else {
            None
        }
    }

    /// Data of unit type `id`, if the table has it.
    pub fn unit_type(&self, id: u16) -> (r: Option<&UnitType>)
        ensures
            id < self.unit_types@.len() ==> r == Some(&self.unit_types@[id as int]),
            id >= self.unit_types@.len() ==> r is None,
    {
        if (id as usize) < self.unit_types.len() {
            Some(&self.unit_types[id as usize])
        } else {
            None
        }
    }

    /// Data of weapon type `id`; weapon 130 means "none".
    pub fn weapon_type(&self, id: u8) -> (r: Option<&WeaponType>)
        ensures
            (id != 130 && id < self.weapon_types@.len()) ==> r == Some(&self.weapon_types@[id as int]),
            !(id != 130 && id < self.weapon_types@.len()) ==> r is None,
    {
        if id == 130 {
            return None;
        }
        if (id as usize) < self.weapon_types.len() {
            Some(&self.weapon_types[id as usize])
        } else {
            None
        }
    }
}

/// Unit size class, which weapon damage types are scaled by.
#[derive(Debug, Clone, Copy, PartialEq, Eq, Structural)]
pub enum UnitSize {
    Independent,
    Small,
    Medium,
    Large,
}

} // verus!
