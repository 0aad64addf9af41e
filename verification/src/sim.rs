//! Pieces of the game simulation that stand on their own: unit slot and tag
//! allocation, weapon damage and its application, and the separation of
//! overlapping ground units. The statistics they read beyond the `.dat`
//! tables held here (shields, sizes, damage types, upgrade levels) are
//! handed in by the caller.
use vstd::prelude::*;

use crate::chk_units::ChkUnit;
use crate::dat::{GameData, UnitSize, UnitType, COMMAND_CENTER_ID};
use crate::game::MAX_UNITS;
use crate::unit::UnitState;

verus! {

/// The unit type of a start location marker, which takes no slot.
pub const START_LOCATION_TYPE: u16 = 214;

/// Turret type ids from this one on mean "no turret".
pub const NO_TURRET: u16 = 228;

/// The turret type of a unit type: from its data, or 0 (the default record)
/// for a type without data.
pub open spec fn turret_of(types: Seq<UnitType>, unit_type: u16) -> u16 {
    if (unit_type as int) < types.len() {
        types[unit_type as int].turret_unit_type
    } else {
        0
    }
}

/// Whether creating a unit of this type also reserves the next slot for its
/// turret subunit: non-building unit types (below the command center) with a
/// turret type.
pub open spec fn takes_turret_slot(types: Seq<UnitType>, unit_type: u16) -> bool {
    unit_type < COMMAND_CENTER_ID && turret_of(types, unit_type) < NO_TURRET
}

/// Creating a unit at slot `next`: the next free slot afterwards, and the
/// unit's tag (its slot, generation 0), or nothing when all slots are taken.
pub open spec fn create_spec(types: Seq<UnitType>, next: int, unit_type: u16) -> (int, Option<u16>) {
    if next >= MAX_UNITS {
        (next, None)
    } else {
        let after = next + 1;
        let after_turret = if takes_turret_slot(types, unit_type) && after < MAX_UNITS {
            after + 1
        } else {
            after
        };
        (after_turret, Some(next as u16))
    }
}

/// Placing a map's units in order from slot `start`: the next free slot,
/// and the tag of each unit created. Start locations take no slot, and
/// placement stops once the slots run out.
pub open spec fn placed_from(start: int, units: Seq<ChkUnit>, types: Seq<UnitType>) -> (int, Seq<u16>)
    decreases units.len(),
{
    if units.len() == 0 {
        (start, Seq::empty())
    } else {
        let prev = placed_from(start, units.drop_last(), types);
        let u = units.last();
        if prev.0 >= MAX_UNITS || u.unit_type == START_LOCATION_TYPE {
            prev
        } else {
            let c = create_spec(types, prev.0, u.unit_type);
            (c.0, prev.1.push(c.1.unwrap()))
        }
    }
}

/// Placing a map's units in order from slot 0.
pub open spec fn place_units(units: Seq<ChkUnit>, types: Seq<UnitType>) -> (int, Seq<u16>) {
    placed_from(0, units, types)
}

/// The units of a map that take a slot, in order: all but start locations.
pub open spec fn slot_units(units: Seq<ChkUnit>) -> Seq<ChkUnit>
    decreases units.len(),
{
    if units.len() == 0 {
        Seq::empty()
    } else if units.last().unit_type == START_LOCATION_TYPE {
        slot_units(units.drop_last())
    } else {
        slot_units(units.drop_last()).push(units.last())
    }
}

/// The turret type of a unit type, as `create_spec` reads it.
fn turret_type(data: &GameData, unit_type: u16) -> (r: u16)
    ensures
        r == turret_of(data.unit_types@, unit_type),
{
    match data.unit_type(unit_type) {
        Some(ut) => ut.turret_unit_type,
        None => 0,
    }
}

/// Creates a unit at slot `next`: the next free slot and the new unit's tag.
pub fn create_slot(data: &GameData, next: u16, unit_type: u16) -> (r: (u16, Option<u16>))
    requires
        next <= MAX_UNITS,
    ensures
        r.0 == create_spec(data.unit_types@, next as int, unit_type).0,
        r.1 == create_spec(data.unit_types@, next as int, unit_type).1,
        r.0 <= MAX_UNITS,
{
    if next as usize >= MAX_UNITS {
        return (next, None);
    }
    let after = next + 1;
    let turret = turret_type(data, unit_type);
    let after_turret = if unit_type < COMMAND_CENTER_ID && turret < NO_TURRET && (after as usize)
        < MAX_UNITS {
        after + 1
    } else {
        after
    };
    (after_turret, Some(next))
}

/// The tags the game gives a map's placed units, in placement order: each
/// unit takes the next slot (its tag), a unit with a turret also takes the
/// slot after it, start locations take none, and placement stops when the
/// slots run out.
pub fn initial_unit_tags(units: &[ChkUnit], data: &GameData) -> (tags: Vec<u16>)
    ensures
        tags@ == place_units(units@, data.unit_types@).1,
{
    let mut tags: Vec<u16> = Vec::new();
    let mut next: u16 = 0;
    let mut i: usize = 0;
    while i < units.len()
        invariant
            i <= units@.len(),
            next <= MAX_UNITS,
            place_units(units@.take(i as int), data.unit_types@) == (next as int, tags@),
        decreases units@.len() - i,
    {
        proof {
            assert(units@.take(i + 1).drop_last() =~= units@.take(i as int));
            assert(units@.take(i + 1).last() == units@[i as int]);
        }
        let u = units[i];
        if (next as usize) < MAX_UNITS && u.unit_type != START_LOCATION_TYPE {
            let (after, tag) = create_slot(data, next, u.unit_type);
            match tag {
                Some(t) => {
                    tags.push(t);
                },
                None => {},
            }
            next = after;
        }
        i += 1;
    }
    assert(units@.take(i as int) =~= units@);
    tags
}

/// A weapon's statistics, as the caller has them: the `weapons.dat` fields
/// and, beyond them, whether the damage type ignores armour and its damage
/// ratio (numerator, denominator) against each unit size, indexed
/// independent, small, medium, large.
#[derive(Debug, Clone, Copy)]
pub struct WeaponStats {
    pub damage_amount: u16,
    pub damage_bonus: u16,
    pub cooldown: u8,
    pub damage_factor: u8,
    pub max_range: u32,
    pub ignores_armor: bool,
    pub size_modifier: [(u8, u8); 4],
}

/// The index of a unit size in a size table.
pub open spec fn size_index(size: UnitSize) -> int {
    match size {
        UnitSize::Independent => 0,
        UnitSize::Small => 1,
        UnitSize::Medium => 2,
        UnitSize::Large => 3,
    }
}

/// Damage before the size ratio: amount times factor (at least 1), plus the
/// upgrade bonus per level.
pub open spec fn base_damage(w: WeaponStats, bonus_level: u8) -> int {
    w.damage_amount * (if w.damage_factor == 0 { 1int } else { w.damage_factor as int }) + w.damage_bonus
        * bonus_level
}

/// Damage of one hit, in whole hit points: the base damage scaled by the
/// weapon's ratio against the target's size, less the target's armour and
/// armour upgrades unless the damage ignores armour, and at least 1.
pub open spec fn hit_damage_spec(w: WeaponStats, bonus_level: u8, size: UnitSize, armor: u8, armor_level: u8) -> int {
    let (num, den) = w.size_modifier@[size_index(size)];
    let scaled = base_damage(w, bonus_level) * num / den as int;
    let after_armor = if w.ignores_armor { scaled } else { scaled - armor - armor_level };
    if after_armor < 1 { 1 } else { after_armor }
}

/// The damage one hit of weapon `w` deals to a target of size `size` with
/// `armor` plus `armor_level` armour upgrades, the attacker having
/// `bonus_level` weapon upgrades.
pub fn hit_damage(w: &WeaponStats, bonus_level: u8, size: UnitSize, armor: u8, armor_level: u8) -> (d: i32)
    requires
        w.size_modifier@[size_index(size)].1 > 0,
        base_damage(*w, bonus_level) * w.size_modifier@[size_index(size)].0 <= i32::MAX,
    ensures
        d == hit_damage_spec(*w, bonus_level, size, armor, armor_level),
        d >= 1,
{
    let idx: usize = match size {
        UnitSize::Independent => 0,
        UnitSize::Small => 1,
        UnitSize::Medium => 2,
        UnitSize::Large => 3,
    };
    let (num, den) = w.size_modifier[idx];
    let factor: i64 = if w.damage_factor == 0 { 1 } else { w.damage_factor as i64 };
    let amount: i64 = w.damage_amount as i64;
    let bonus: i64 = w.damage_bonus as i64;
    let level: i64 = bonus_level as i64;
    assert(0 <= amount * factor <= 65535 * 255) by (nonlinear_arith)
        requires
            0 <= amount <= 65535,
            1 <= factor <= 255,
    ;
    assert(0 <= bonus * level <= 65535 * 255) by (nonlinear_arith)
        requires
            0 <= bonus <= 65535,
            0 <= level <= 255,
    ;
    let base: i64 = amount * factor + bonus * level;
    assert(base == base_damage(*w, bonus_level));
    assert(base >= 0) by (nonlinear_arith)
        requires
            base == w.damage_amount * factor + w.damage_bonus * bonus_level,
            factor >= 1,
    ;
    assert(0 <= base * (num as i64) <= i32::MAX) by (nonlinear_arith)
        requires
            base >= 0,
            base * num <= i32::MAX,
            num >= 0,
    ;
    let scaled: i64 = base * (num as i64) / (den as i64);
    assert(0 <= scaled <= i32::MAX) by (nonlinear_arith)
        requires
            0 <= base * num <= i32::MAX,
            scaled == base * num / den as int,
            den > 0,
    ;
    let after_armor: i64 = if w.ignores_armor {
        scaled
    } else {
        scaled - armor as i64 - armor_level as i64
    };
    if after_armor < 1 {
        1
    } else {
        after_armor as i32
    }
}

/// A unit after a hit of `damage` (fp8): shields take the damage first, the
/// rest comes off the hit points, and the unit dies when they reach zero.
pub open spec fn after_hit(u: UnitState, damage: int) -> UnitState {
    let (shields, hp) = if u.shields > 0 {
        let absorbed = if damage < u.shields { damage } else { u.shields as int };
        (u.shields - absorbed, if damage - absorbed > 0 { u.hp - (damage - absorbed) } else { u.hp as int })
    } else {
        (u.shields as int, u.hp - damage)
    };
    UnitState { shields: shields as i32, hp: hp as i32, alive: u.alive && hp > 0, ..u }
}

/// Applies a hit of `damage_fp8` (fp8, not negative) to a unit.
pub fn apply_hit(target: &mut UnitState, damage_fp8: i32)
    requires
        damage_fp8 >= 0,
        old(target).hp - damage_fp8 >= i32::MIN,
    ensures
        *final(target) == after_hit(*old(target), damage_fp8 as int),
{
    if target.shields > 0 {
        let absorbed = if damage_fp8 < target.shields { damage_fp8 } else { target.shields };
        target.shields = target.shields - absorbed;
        let remaining = damage_fp8 - absorbed;
        if remaining > 0 {
            target.hp = target.hp - remaining;
        }
    } else {
        target.hp = target.hp - damage_fp8;
    }
    if target.hp <= 0 {
        target.alive = false;
    }
}

} // verus!
