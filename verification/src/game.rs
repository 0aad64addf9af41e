//! The game simulation: player state (resources, supply, upgrades and
//! researched techs), the commands the engine understands, and `Game`, which
//! creates units in BW's slot order, applies commands and steps frames.
use vstd::prelude::*;

use crate::chk_units::ChkUnit;
use crate::dat::{FlingyType, GameData, UnitSize, UnitType, WeaponType, COMMAND_CENTER_ID};
use crate::direction::Direction;
use crate::fp8::{trunc_div, wrap_i32, Fp8, XY};
use crate::error::Result;
use crate::map::{MapModel, TileMap};
use crate::vision::{cleared, follows, vision_shape, VisionCall, VisionMap, VisionModel, PLAYERS};
use crate::sim::{
    after_hit, apply_hit, base_damage, hit_damage, hit_damage_spec, size_index, WeaponStats,
    create_spec, placed_from, slot_units, takes_turret_slot, turret_of, NO_TURRET, START_LOCATION_TYPE,
};
use crate::unit::{
    delta_to, id_of_tag, tag_of, movement_defined, movement_step, steer_target, MoveState, UnitId, UnitState,
};

verus! {

/// Maximum number of units the game supports.
pub const MAX_UNITS: usize = 1700;

/// Maximum number of players.
pub const MAX_PLAYERS: usize = 8;

/// Number of upgrade slots a player has.
pub const UPGRADE_SLOTS: usize = 64;

/// Per-player resource and supply state.
#[derive(Debug, Clone)]
pub struct PlayerState {
    pub minerals: i32,
    pub gas: i32,
    /// Supply in use, in half units (a marine is two, a zergling one).
    pub supply_used: i32,
    /// Supply available, in half units.
    pub supply_max: i32,
    /// Upgrade levels indexed by upgrade type id.
    pub upgrade_levels: Vec<u8>,
    /// Researched techs as a bit set (tech type ids below 64).
    pub researched_techs: u64,
}

/// Whether bit `id` of `bits` is set (ids from 64 on are never set).
pub open spec fn tech_bit(bits: u64, id: u8) -> bool {
    id < 64 && (bits >> id) & 1u64 == 1u64
}

/// The level stored for an upgrade: zero for an id without a slot.
pub open spec fn level_in(levels: Seq<u8>, id: u8) -> u8 {
    if (id as int) < levels.len() {
        levels[id as int]
    } else {
        0
    }
}

impl Default for PlayerState {
    fn default() -> (r: PlayerState)
        ensures
            r.minerals == 0,
            r.gas == 0,
            r.supply_used == 0,
            r.supply_max == 0,
            r.upgrade_levels@ == Seq::new(UPGRADE_SLOTS as nat, |i: int| 0u8),
            r.researched_techs == 0,
    {
        let mut levels: Vec<u8> = Vec::new();
        let mut i: usize = 0;
        while i < UPGRADE_SLOTS
            invariant
                i <= UPGRADE_SLOTS,
                levels@ == Seq::new(i as nat, |k: int| 0u8),
            decreases UPGRADE_SLOTS - i,
        {
            levels.push(0);
            i += 1;
            assert(levels@ =~= Seq::new(i as nat, |k: int| 0u8));
        }
        PlayerState {
            minerals: 0,
            gas: 0,
            supply_used: 0,
            supply_max: 0,
            upgrade_levels: levels,
            researched_techs: 0,
        }
    }
}

impl PlayerState {
    /// The level of an upgrade; zero for an id without a slot.
    pub fn upgrade_level(&self, upgrade_id: u8) -> (r: u8)
        ensures
            r == level_in(self.upgrade_levels@, upgrade_id),
    {
        let i = upgrade_id as usize;
        if i < self.upgrade_levels.len() {
            self.upgrade_levels[i]
        } else {
            0
        }
    }

    /// Whether a tech has been researched; always false for ids from 64 on.
    pub fn has_tech(&self, tech_id: u8) -> (r: bool)
        ensures
            r == tech_bit(self.researched_techs, tech_id),
    {
        if tech_id >= 64 {
            return false;
        }
        let bits = self.researched_techs;
        let r = bits & (1u64 << tech_id) != 0;
        assert(r == ((bits >> tech_id) & 1u64 == 1u64)) by (bit_vector)
            requires
                tech_id < 64,
                r == (bits & (1u64 << tech_id) != 0),
        ;
        r
    }

    /// Marks a tech as researched; ids from 64 on are ignored.
    pub fn research_tech(&mut self, tech_id: u8)
        ensures
            forall|t: u8|
                tech_bit(final(self).researched_techs, t) == (tech_bit(
                    old(self).researched_techs,
                    t,
                ) || (t == tech_id && tech_id < 64)),
            final(self).minerals == old(self).minerals,
            final(self).gas == old(self).gas,
            final(self).supply_used == old(self).supply_used,
            final(self).supply_max == old(self).supply_max,
            final(self).upgrade_levels@ == old(self).upgrade_levels@,
    {
        if tech_id < 64 {
            let before = self.researched_techs;
            let after = before | (1u64 << tech_id);
            assert forall|t: u8| tech_bit(after, t) == (tech_bit(before, t) || t == tech_id) by {
                if t < 64 {
                    assert(((after >> t) & 1u64 == 1u64) == (((before >> t) & 1u64 == 1u64)
                        || t == tech_id)) by (bit_vector)
                        requires
                            tech_id < 64,
                            t < 64,
                            after == before | (1u64 << tech_id),
                    ;
                }
            }
            self.researched_techs = after;
        }
    }

    /// Raises an upgrade's level by one, staying at 255; ids without a slot
    /// are ignored.
    pub fn increment_upgrade(&mut self, upgrade_id: u8)
        ensures
            final(self).upgrade_levels@ == if (upgrade_id as int) < old(
                self,
            ).upgrade_levels@.len() {
                old(self).upgrade_levels@.update(
                    upgrade_id as int,
                    if old(self).upgrade_levels@[upgrade_id as int] == u8::MAX {
                        u8::MAX
                    } else {
                        (old(self).upgrade_levels@[upgrade_id as int] + 1) as u8
                    },
                )
            } else {
                old(self).upgrade_levels@
            },
            final(self).minerals == old(self).minerals,
            final(self).gas == old(self).gas,
            final(self).supply_used == old(self).supply_used,
            final(self).supply_max == old(self).supply_max,
            final(self).researched_techs == old(self).researched_techs,
    {
        let i = upgrade_id as usize;
        if i < self.upgrade_levels.len() {
            let level = self.upgrade_levels[i];
            let raised = level.saturating_add(1);
            self.upgrade_levels.set(i, raised);
        }
    }
}

/// Commands the engine understands.
#[derive(Debug, Clone)]
pub enum EngineCommand {
    Select(Vec<u16>),
    SelectAdd(Vec<u16>),
    SelectRemove(Vec<u16>),
    HotkeyAssign { group: u8 },
    HotkeyRecall { group: u8 },
    Move { x: u16, y: u16 },
    Attack { target_tag: u16 },
    Stop,
    Train { unit_type: u16 },
    Build { x: u16, y: u16, unit_type: u16 },
    UnitMorph { unit_type: u16 },
    BuildingMorph { unit_type: u16 },
    Research { tech_type: u8 },
    Upgrade { upgrade_type: u8 },
}

/// Whether a unit type is a worker: SCV, drone or probe.
pub open spec fn is_worker_spec(unit_type: u16) -> bool {
    unit_type == 7 || unit_type == 41 || unit_type == 64
}

/// Whether a unit type is a spellcaster: science vessel, queen, defiler,
/// high templar, dark archon, medic or arbiter.
pub open spec fn is_caster_spec(unit_type: u16) -> bool {
    unit_type == 9 || unit_type == 45 || unit_type == 46 || unit_type == 67 || unit_type == 63
        || unit_type == 34 || unit_type == 71
}

/// Starting energy of a unit type in fp8: 50 for spellcasters, else none.
pub open spec fn start_energy_spec(unit_type: u16) -> int {
    if is_caster_spec(unit_type) { 12800 } else { 0 }
}

/// Maximum energy of a unit type in fp8: 200 for spellcasters, else none.
pub open spec fn max_energy_spec(unit_type: u16) -> int {
    if is_caster_spec(unit_type) { 51200 } else { 0 }
}

/// Whether a unit type is a worker: SCV, drone or probe.
pub fn is_worker_type(unit_type: u16) -> (r: bool)
    ensures
        r == is_worker_spec(unit_type),
{
    unit_type == 7 || unit_type == 41 || unit_type == 64
}

/// Starting energy in fp8: 50 for spellcasters, else none.
pub fn energy_for_type(unit_type: u16) -> (r: i32)
    ensures
        r == start_energy_spec(unit_type),
{
    match unit_type {
        9 => 50 * 256,
        45 => 50 * 256,
        46 => 50 * 256,
        67 => 50 * 256,
        63 => 50 * 256,
        34 => 50 * 256,
        71 => 50 * 256,
        _ => 0,
    }
}

/// Maximum energy in fp8: 200 for spellcasters, else none.
pub fn max_energy_for_type(unit_type: u16) -> (r: i32)
    ensures
        r == max_energy_spec(unit_type),
{
    match unit_type {
        9 | 45 | 46 | 67 | 63 | 34 | 71 => 200 * 256,
        _ => 0,
    }
}

/// Collision radius in pixels: 16 for buildings, ultralisks, battlecruisers
/// and carriers, else 8.
pub fn collision_radius_for_type(unit_type: u16, is_building: bool) -> (r: u8)
    ensures
        r == if is_building || unit_type == 39 || unit_type == 12 || unit_type == 72 {
            16u8
        } else {
            8u8
        },
{
    if is_building {
        return 16;
    }
    match unit_type {
        39 => 16,
        12 => 16,
        72 => 16,
        _ => 8,
    }
}

/// Supply a unit or building provides, in half units: command center 20,
/// supply depot, overlord and pylon 16, nexus 18, hatchery, lair and hive 2.
pub open spec fn half_supply_spec(unit_type: u16) -> i32 {
    if unit_type == 106 {
        20
    } else if unit_type == 109 || unit_type == 42 || unit_type == 156 {
        16
    } else if 131 <= unit_type <= 133 {
        2
    } else if unit_type == 154 {
        18
    } else {
        0
    }
}

/// Supply a unit or building provides, in half units.
pub fn half_supply_provided(unit_type: u16) -> (r: i32)
    ensures
        r == half_supply_spec(unit_type),
{
    match unit_type {
        106 => 20,
        109 => 16,
        131..=133 => 2,
        42 => 16,
        154 => 18,
        156 => 16,
        _ => 0,
    }
}

/// A unit starts with no more energy than it can hold, and only units that
/// hold energy start with any.
pub proof fn lemma_energy_within_max(unit_type: u16)
    ensures
        start_energy_spec(unit_type) <= max_energy_spec(unit_type),
        start_energy_spec(unit_type) > 0 <==> max_energy_spec(unit_type) > 0,
{
}

impl PlayerState {
    /// Adds the supply a finished unit or building provides.
    pub fn add_supply(&mut self, unit_type: u16)
        requires
            old(self).supply_max + half_supply_spec(unit_type) <= i32::MAX,
        ensures
            *final(self) == (PlayerState {
                supply_max: (old(self).supply_max + half_supply_spec(unit_type)) as i32,
                ..*old(self)
            }),
    {
        let provided = half_supply_provided(unit_type);
        if provided > 0 {
            self.supply_max = self.supply_max + provided;
        }
    }
}

/// Statistics of a unit type beyond the `.dat` tables held here, as the
/// caller has them.
#[derive(Debug, Clone, Copy, PartialEq, Eq, Structural)]
pub struct UnitStats {
    pub sight_range: u8,
    pub armor_upgrade: u8,
    pub has_shield: bool,
    pub shield_points: u16,
    pub unit_size: UnitSize,
    pub is_air: bool,
    pub mineral_cost: u16,
    pub gas_cost: u16,
}

/// How a weapon's damage type treats armour and unit sizes, as the caller
/// has it: whether it ignores armour, and its damage ratio (numerator,
/// denominator) against each size, indexed independent, small, medium,
/// large.
#[derive(Debug, Clone, Copy)]
pub struct WeaponKind {
    pub ignores_armor: bool,
    pub size_modifier: [(u8, u8); 4],
}

/// The statistics of a type without any: all zero, independent size.
pub open spec fn no_stats() -> UnitStats {
    UnitStats {
        sight_range: 0,
        armor_upgrade: 0,
        has_shield: false,
        shield_points: 0,
        unit_size: UnitSize::Independent,
        is_air: false,
        mineral_cost: 0,
        gas_cost: 0,
    }
}

/// The statistics of a unit type, or `no_stats` for a type the table lacks.
pub open spec fn stats_of(stats: Seq<UnitStats>, unit_type: u16) -> UnitStats {
    if (unit_type as int) < stats.len() {
        stats[unit_type as int]
    } else {
        no_stats()
    }
}

/// The data of a unit type, or the all-zero record for a type the table lacks.
pub open spec fn type_of(types: Seq<UnitType>, unit_type: u16) -> UnitType {
    if (unit_type as int) < types.len() {
        types[unit_type as int]
    } else {
        UnitType {
            flingy_id: 0,
            turret_unit_type: 0,
            hitpoints: 0,
            ground_weapon: 0,
            max_ground_hits: 0,
            air_weapon: 0,
            max_air_hits: 0,
            armor: 0,
            build_time: 0,
            is_building: false,
        }
    }
}

/// The flingy data of a unit type through its flingy id, or the all-zero
/// record where either table lacks the entry.
pub open spec fn flingy_of(types: Seq<UnitType>, flingies: Seq<FlingyType>, unit_type: u16) -> FlingyType {
    if (unit_type as int) < types.len() && (types[unit_type as int].flingy_id as int)
        < flingies.len() {
        flingies[types[unit_type as int].flingy_id as int]
    } else {
        FlingyType { top_speed: 0, acceleration: 0, halt_distance: 0, turn_rate: 0, movement_type: 0 }
    }
}

/// Shields a unit of these statistics starts with, in fp8.
pub open spec fn start_shields(st: UnitStats) -> int {
    if st.has_shield { st.shield_points * 256 } else { 0 }
}

/// What the game knows of itself: the tables it reads, the unit slots, the
/// next free slot, the frame, the selections (each player's current one,
/// then each player's hotkey groups, see `hotkey_slot`) and each player's
/// state.
pub struct GameView {
    pub unit_types: Seq<UnitType>,
    pub flingy_types: Seq<FlingyType>,
    pub weapon_types: Seq<WeaponType>,
    pub stats: Seq<UnitStats>,
    pub weapon_kinds: Seq<WeaponKind>,
    pub units: Seq<Option<UnitState>>,
    pub next_unit_index: int,
    pub current_frame: int,
    pub selection: Seq<Seq<u16>>,
    pub players: Seq<PlayerState>,
    pub map: MapModel,
    pub vision: VisionModel,
    /// Whether the vision map keeps its own invariant.
    pub vision_ok: bool,
}

/// Hotkey groups each player has.
pub const HOTKEY_GROUPS: usize = 10;

/// Number of selections a game keeps: one current selection per player and
/// `HOTKEY_GROUPS` groups per player.
pub const SELECTION_SLOTS: usize = 88;

/// Where hotkey group `g` of player `p` stands among the selections.
pub open spec fn hotkey_slot(p: int, g: int) -> int {
    MAX_PLAYERS + p * HOTKEY_GROUPS + g
}

/// The game simulation state.
pub struct Game {
    map: TileMap,
    vision: VisionMap,
    data: GameData,
    stats: Vec<UnitStats>,
    weapon_kinds: Vec<WeaponKind>,
    current_frame: u32,
    units: Vec<Option<UnitState>>,
    selection: Vec<Vec<u16>>,
    next_unit_index: u16,
    player_states: Vec<PlayerState>,
}

impl View for Game {
    type V = GameView;

    closed spec fn view(&self) -> GameView {
        GameView {
            unit_types: self.data.unit_types@,
            flingy_types: self.data.flingy_types@,
            weapon_types: self.data.weapon_types@,
            stats: self.stats@,
            weapon_kinds: self.weapon_kinds@,
            units: self.units@,
            next_unit_index: self.next_unit_index as int,
            current_frame: self.current_frame as int,
            selection: Seq::new(self.selection@.len(), |p: int| self.selection@[p]@),
            players: self.player_states@,
            map: self.map@,
            vision: self.vision@,
            vision_ok: self.vision.wf(),
        }
    }
}

/// A unit as the game creates it in slot `index`: its type's data, flingy
/// and statistics, at rest at pixel (x, y) with nothing to do. A turret
/// subunit never counts as a building.
pub open spec fn fresh_unit(
    v: GameView,
    u: UnitState,
    index: int,
    unit_type: u16,
    owner: u8,
    x: i32,
    y: i32,
    turret: bool,
) -> bool {
    let ut = type_of(v.unit_types, unit_type);
    let fl = flingy_of(v.unit_types, v.flingy_types, unit_type);
    let st = stats_of(v.stats, unit_type);
    &&& u.id@ == (index as u16, 0u16)
    &&& u.unit_type == unit_type
    &&& u.owner == owner
    &&& u.alive
    &&& u.exact_position.x.0 == x << 8 && u.exact_position.y.0 == y << 8
    &&& u.pixel_x == x && u.pixel_y == y
    &&& u.velocity.x.0 == 0 && u.velocity.y.0 == 0
    &&& u.heading.0 == 0
    &&& u.current_speed.0 == 0
    &&& u.move_state == MoveState::AtRest
    &&& u.move_target is None
    &&& u.waypoints@.len() == 0 && u.waypoint_index == 0
    &&& u.top_speed == fl.top_speed && u.acceleration == fl.acceleration
    &&& u.halt_distance == fl.halt_distance && u.turn_rate == fl.turn_rate
    &&& u.movement_type == fl.movement_type
    &&& u.hp == ut.hitpoints && u.max_hp == ut.hitpoints
    &&& u.shields == start_shields(st) && u.max_shields == start_shields(st)
    &&& u.armor == ut.armor && u.unit_size == st.unit_size && u.is_air == st.is_air
    &&& u.ground_weapon == ut.ground_weapon && u.air_weapon == ut.air_weapon
    &&& u.weapon_cooldown == 0
    &&& u.attack_target is None
    &&& u.build_queue@.len() == 0 && u.build_timer == 0
    &&& u.is_building == (!turret && ut.is_building)
    &&& !u.under_construction
    &&& u.morph_timer == 0
    &&& u.morph_target is None
    &&& u.energy == (if turret { 0 } else { start_energy_spec(unit_type) })
    &&& u.max_energy == (if turret { 0 } else { max_energy_spec(unit_type) })
    &&& u.is_worker == (!turret && is_worker_spec(unit_type))
    &&& u.mining_timer == 0
    &&& u.mining_target is None
    &&& u.collision_radius == (if turret { 8 } else { radius_for(unit_type, ut.is_building) })
}

/// Collision radius (pixels) of a unit type: 16 for buildings, ultralisks,
/// battlecruisers and carriers, else 8.
pub open spec fn radius_for(unit_type: u16, is_building: bool) -> u8 {
    if is_building || unit_type == 39 || unit_type == 12 || unit_type == 72 { 16 } else { 8 }
}

/// The slot a live unit with this tag occupies: the tag's index, whatever
/// its generation.
pub open spec fn live_unit(v: GameView, tag: u16) -> Option<UnitState> {
    let i = id_of_tag(tag).0 as int;
    if i < v.units.len() && v.units[i] is Some && v.units[i].unwrap().alive {
        v.units[i]
    } else {
        None
    }
}

/// Number of live units among the first `n` slots.
pub open spec fn live_count(units: Seq<Option<UnitState>>, n: int) -> nat
    decreases n,
{
    if n <= 0 {
        0
    } else {
        live_count(units, n - 1) + if units[n - 1] is Some && units[n - 1].unwrap().alive {
            1nat
        } else {
            0nat
        }
    }
}

impl GameView {
    /// The invariant of a game: one slot per possible unit, the next free
    /// slot within them, a selection and a state for every player.
    pub open spec fn wf(self) -> bool {
        &&& self.units.len() == MAX_UNITS
        &&& 0 <= self.next_unit_index <= MAX_UNITS
        &&& self.selection.len() == SELECTION_SLOTS
        &&& self.vision_ok
        &&& vision_shape(self.vision, self.map.width, self.map.height)
        &&& self.players.len() == MAX_PLAYERS
        &&& self.current_frame <= u32::MAX
        &&& forall|i: int|
            0 <= i < MAX_UNITS ==> ((#[trigger] self.units[i]) is Some <==> i < self.next_unit_index)
        &&& forall|i: int|
            0 <= i < MAX_UNITS && (#[trigger] self.units[i]) is Some ==> self.units[i].unwrap().id@.0 == i
                && self.units[i].unwrap().collision_radius <= 16
    }

    /// The same game with other units, next free slot and selections only.
    pub open spec fn same_tables(self, other: GameView) -> bool {
        &&& self.unit_types == other.unit_types
        &&& self.flingy_types == other.flingy_types
        &&& self.weapon_types == other.weapon_types
        &&& self.stats == other.stats
        &&& self.weapon_kinds == other.weapon_kinds
        &&& self.map == other.map
        &&& self.vision == other.vision
        &&& self.vision_ok == other.vision_ok
    }
}

/// Every slot in `[lo, hi)` may have changed; all others are as before.
pub open spec fn same_outside(a: Seq<Option<UnitState>>, b: Seq<Option<UnitState>>, lo: int, hi: int) -> bool {
    &&& a.len() == b.len()
    &&& forall|i: int| 0 <= i < a.len() && !(lo <= i < hi) ==> #[trigger] a[i] == b[i]
}

/// Slot `i` holds a unit as the game creates it.
pub open spec fn created_at(
    before: GameView,
    after: GameView,
    i: int,
    unit_type: u16,
    owner: u8,
    x: i32,
    y: i32,
    turret: bool,
) -> bool {
    &&& 0 <= i < after.units.len()
    &&& after.units[i] is Some
    &&& fresh_unit(before, after.units[i].unwrap(), i, unit_type, owner, x, y, turret)
}

impl Game {
    /// A game on the given tables with every slot empty, nothing selected,
    /// and every player at the default state, at frame 0.
    pub fn new(map: TileMap, data: GameData, stats: Vec<UnitStats>, weapon_kinds: Vec<WeaponKind>) -> (g: Game)
        ensures
            g@.wf(),
            g@.map == map@,
            crate::vision::fresh_vision(g@.vision, map@.width, map@.height),
            g@.unit_types == data.unit_types@,
            g@.flingy_types == data.flingy_types@,
            g@.weapon_types == data.weapon_types@,
            g@.stats == stats@,
            g@.weapon_kinds == weapon_kinds@,
            forall|i: int| 0 <= i < MAX_UNITS ==> #[trigger] g@.units[i] is None,
            g@.next_unit_index == 0,
            g@.current_frame == 0,
            forall|p: int| 0 <= p < SELECTION_SLOTS ==> #[trigger] g@.selection[p].len() == 0,
            forall|p: int|
                0 <= p < MAX_PLAYERS ==> {
                    let ps = #[trigger] g@.players[p];
                    &&& ps.minerals == 0 && ps.gas == 0
                    &&& ps.supply_used == 0 && ps.supply_max == 0
                    &&& ps.upgrade_levels@ == Seq::new(UPGRADE_SLOTS as nat, |k: int| 0u8)
                    &&& ps.researched_techs == 0
                },
    {
        let mut units: Vec<Option<UnitState>> = Vec::new();
        let mut i: usize = 0;
        while i < MAX_UNITS
            invariant
                i <= MAX_UNITS,
                units@.len() == i,
                forall|k: int| 0 <= k < i ==> #[trigger] units@[k] is None,
            decreases MAX_UNITS - i,
        {
            units.push(None);
            i += 1;
        }
        let mut selection: Vec<Vec<u16>> = Vec::new();
        let mut q: usize = 0;
        while q < SELECTION_SLOTS
            invariant
                q <= SELECTION_SLOTS,
                selection@.len() == q,
                forall|k: int| 0 <= k < q ==> (#[trigger] selection@[k])@.len() == 0,
            decreases SELECTION_SLOTS - q,
        {
            selection.push(Vec::new());
            q += 1;
        }
        let mut player_states: Vec<PlayerState> = Vec::new();
        let mut p: usize = 0;
        while p < MAX_PLAYERS
            invariant
                p <= MAX_PLAYERS,
                player_states@.len() == p,
                forall|k: int|
                    0 <= k < p ==> {
                        let ps = #[trigger] player_states@[k];
                        &&& ps.minerals == 0 && ps.gas == 0
                        &&& ps.supply_used == 0 && ps.supply_max == 0
                        &&& ps.upgrade_levels@ == Seq::new(UPGRADE_SLOTS as nat, |j: int| 0u8)
                        &&& ps.researched_techs == 0
                    },
            decreases MAX_PLAYERS - p,
        {
            player_states.push(PlayerState::default());
            p += 1;
        }
        let vision = VisionMap::new(map.width(), map.height());
        Game {
            map,
            vision,
            data,
            stats,
            weapon_kinds,
            current_frame: 0,
            units,
            selection,
            next_unit_index: 0,
            player_states,
        }
    }

    /// The statistics of a unit type, or none for a type the table lacks.
    fn stats_for(&self, unit_type: u16) -> (r: UnitStats)
        ensures
            r == stats_of(self@.stats, unit_type),
    {
        if (unit_type as usize) < self.stats.len() {
            self.stats[unit_type as usize]
        } else {
            UnitStats {
                sight_range: 0,
                armor_upgrade: 0,
                has_shield: false,
                shield_points: 0,
                unit_size: UnitSize::Independent,
                is_air: false,
                mineral_cost: 0,
                gas_cost: 0,
            }
        }
    }

    /// The data of a unit type, or the all-zero record.
    fn type_data(&self, unit_type: u16) -> (r: UnitType)
        ensures
            r == type_of(self@.unit_types, unit_type),
    {
        match self.data.unit_type(unit_type) {
            Some(ut) => *ut,
            None => UnitType {
                flingy_id: 0,
                turret_unit_type: 0,
                hitpoints: 0,
                ground_weapon: 0,
                max_ground_hits: 0,
                air_weapon: 0,
                max_air_hits: 0,
                armor: 0,
                build_time: 0,
                is_building: false,
            },
        }
    }

    /// A unit of `unit_type` for slot `index`, as the game creates it.
    fn make_unit(&self, index: u16, unit_type: u16, owner: u8, x: i32, y: i32, turret: bool) -> (u: UnitState)
        ensures
            fresh_unit(self@, u, index as int, unit_type, owner, x, y, turret),
    {
        let fl = match self.data.flingy_for_unit(unit_type) {
            Some(f) => *f,
            None => FlingyType {
                top_speed: 0,
                acceleration: 0,
                halt_distance: 0,
                turn_rate: 0,
                movement_type: 0,
            },
        };
        let ut = self.type_data(unit_type);
        let st = self.stats_for(unit_type);
        let shield_hp: i32 = if st.has_shield {
            st.shield_points as i32 * 256
        } else {
            0
        };
        UnitState {
            id: UnitId::new(index, 0),
            unit_type,
            owner,
            alive: true,
            exact_position: XY::from_pixels(x, y),
            pixel_x: x,
            pixel_y: y,
            velocity: XY::zero(),
            heading: Direction::north(),
            current_speed: Fp8::zero(),
            move_state: MoveState::AtRest,
            move_target: None,
            waypoints: Vec::new(),
            waypoint_index: 0,
            top_speed: fl.top_speed,
            acceleration: fl.acceleration,
            halt_distance: fl.halt_distance,
            turn_rate: fl.turn_rate,
            movement_type: fl.movement_type,
            hp: ut.hitpoints,
            max_hp: ut.hitpoints,
            shields: shield_hp,
            max_shields: shield_hp,
            armor: ut.armor,
            unit_size: st.unit_size,
            is_air: st.is_air,
            ground_weapon: ut.ground_weapon,
            air_weapon: ut.air_weapon,
            weapon_cooldown: 0,
            attack_target: None,
            build_queue: Vec::new(),
            build_timer: 0,
            is_building: !turret && ut.is_building,
            under_construction: false,
            morph_timer: 0,
            morph_target: None,
            energy: if turret { 0 } else { energy_for_type(unit_type) },
            max_energy: if turret { 0 } else { max_energy_for_type(unit_type) },
            is_worker: !turret && is_worker_type(unit_type),
            mining_timer: 0,
            mining_target: None,
            collision_radius: if turret { 8 } else { collision_radius_for_type(unit_type, ut.is_building) },
        }
    }

    /// Reserves the next slot for a turret subunit of type `turret_type`,
    /// unless every slot is taken.
    fn create_turret_slot(&mut self, turret_type: u16, owner: u8, x: i32, y: i32)
        requires
            old(self)@.wf(),
        ensures
            final(self)@.wf(),
            final(self)@.same_tables(old(self)@),
            final(self)@.current_frame == old(self)@.current_frame,
            final(self)@.selection == old(self)@.selection,
            final(self)@.players == old(self)@.players,
            final(self)@.next_unit_index == if old(self)@.next_unit_index < MAX_UNITS {
                old(self)@.next_unit_index + 1
            } else {
                old(self)@.next_unit_index
            },
            same_outside(old(self)@.units, final(self)@.units, old(self)@.next_unit_index, final(self)@.next_unit_index),
            old(self)@.next_unit_index < MAX_UNITS ==> created_at(
                old(self)@,
                final(self)@,
                old(self)@.next_unit_index,
                turret_type,
                owner,
                x,
                y,
                true,
            ),
    {
        if self.next_unit_index as usize >= MAX_UNITS {
            return;
        }
        let index = self.next_unit_index;
        let unit = self.make_unit(index, turret_type, owner, x, y, true);
        self.next_unit_index = index + 1;
        self.units.set(index as usize, Some(unit));
        assert(self.selection@ == old(self).selection@);
    }

    /// Creates a unit in the next free slot and returns its tag, or nothing
    /// when every slot is taken. A non-building type with a turret also
    /// reserves the slot after it.
    fn create_unit(&mut self, unit_type: u16, owner: u8, x: i32, y: i32) -> (tag: Option<u16>)
        requires
            old(self)@.wf(),
        ensures
            final(self)@.wf(),
            final(self)@.same_tables(old(self)@),
            final(self)@.current_frame == old(self)@.current_frame,
            final(self)@.selection == old(self)@.selection,
            final(self)@.players == old(self)@.players,
            (final(self)@.next_unit_index, tag) == create_spec(
                old(self)@.unit_types,
                old(self)@.next_unit_index,
                unit_type,
            ),
            same_outside(old(self)@.units, final(self)@.units, old(self)@.next_unit_index, final(self)@.next_unit_index),
            old(self)@.next_unit_index < MAX_UNITS ==> created_at(
                old(self)@,
                final(self)@,
                old(self)@.next_unit_index,
                unit_type,
                owner,
                x,
                y,
                false,
            ),
            final(self)@.next_unit_index == old(self)@.next_unit_index + 2 ==> created_at(
                old(self)@,
                final(self)@,
                old(self)@.next_unit_index + 1,
                turret_of(old(self)@.unit_types, unit_type),
                owner,
                x,
                y,
                true,
            ),
    {
        if self.next_unit_index as usize >= MAX_UNITS {
            return None;
        }
        let index = self.next_unit_index;
        let ut = self.type_data(unit_type);
        let unit = self.make_unit(index, unit_type, owner, x, y, false);
        self.next_unit_index = index + 1;
        self.units.set(index as usize, Some(unit));
        assert(self.selection@ == old(self).selection@);
        let ghost mid = self@;
        assert(ut.turret_unit_type == turret_of(old(self)@.unit_types, unit_type));
        if unit_type < COMMAND_CENTER_ID && ut.turret_unit_type < NO_TURRET {
            self.create_turret_slot(ut.turret_unit_type, owner, x, y);
            proof {
                assert(self@.units[index as int] == mid.units[index as int]);
                assert forall|i: int|
                    0 <= i < old(self)@.units.len() && !(old(self)@.next_unit_index <= i
                        < self@.next_unit_index) implies #[trigger] old(self)@.units[i]
                    == self@.units[i] by {
                    assert(mid.units[i] == old(self)@.units[i]);
                    assert(self@.units[i] == mid.units[i]);
                }
            }
        }
        Some(index)
    }

    /// Places a map's units, in order: start locations take no slot, and
    /// placement stops once the slots run out.
    pub fn load_initial_units(&mut self, chk_units: &[ChkUnit]) -> (r: Result<()>)
        requires
            old(self)@.wf(),
        ensures
            r is Ok,
            final(self)@.wf(),
            final(self)@.same_tables(old(self)@),
            final(self)@.current_frame == old(self)@.current_frame,
            final(self)@.selection == old(self)@.selection,
            final(self)@.players == old(self)@.players,
            final(self)@.next_unit_index == placed_from(
                old(self)@.next_unit_index,
                chk_units@,
                old(self)@.unit_types,
            ).0,
            same_outside(old(self)@.units, final(self)@.units, old(self)@.next_unit_index, final(self)@.next_unit_index),
            ({
                let tags = placed_from(old(self)@.next_unit_index, chk_units@, old(self)@.unit_types).1;
                let placed = slot_units(chk_units@);
                &&& tags.len() <= placed.len()
                &&& forall|k: int|
                    0 <= k < tags.len() ==> created_at(
                        old(self)@,
                        final(self)@,
                        #[trigger] tags[k] as int,
                        placed[k].unit_type,
                        placed[k].owner,
                        placed[k].x as i32,
                        placed[k].y as i32,
                        false,
                    )
            }),
    {
        let ghost start = self@;
        let mut i: usize = 0;
        while i < chk_units.len()
            invariant
                i <= chk_units@.len(),
                self@.wf(),
                self@.same_tables(start),
                self@.current_frame == start.current_frame,
                self@.selection == start.selection,
                self@.players == start.players,
                start.wf(),
                self@.next_unit_index == placed_from(start.next_unit_index, chk_units@.take(i as int), start.unit_types).0,
                same_outside(start.units, self@.units, start.next_unit_index, self@.next_unit_index),
                start.next_unit_index <= self@.next_unit_index,
                ({
                    let tags = placed_from(start.next_unit_index, chk_units@.take(i as int), start.unit_types).1;
                    let placed = slot_units(chk_units@.take(i as int));
                    &&& tags.len() <= placed.len()
                    &&& self@.next_unit_index < MAX_UNITS ==> tags.len() == placed.len()
                    &&& forall|k: int|
                        0 <= k < tags.len() ==> start.next_unit_index <= #[trigger] tags[k] < self@.next_unit_index
                    &&& forall|k: int|
                        0 <= k < tags.len() ==> created_at(
                            start,
                            self@,
                            #[trigger] tags[k] as int,
                            placed[k].unit_type,
                            placed[k].owner,
                            placed[k].x as i32,
                            placed[k].y as i32,
                            false,
                        )
                }),
            decreases chk_units@.len() - i,
        {
            proof {
                assert(chk_units@.take(i + 1).drop_last() =~= chk_units@.take(i as int));
                assert(chk_units@.take(i + 1).last() == chk_units@[i as int]);
            }
            let u = chk_units[i];
            let ghost before = self@;
            let ghost tags0 = placed_from(start.next_unit_index, chk_units@.take(i as int), start.unit_types).1;
            let ghost placed0 = slot_units(chk_units@.take(i as int));
            if (self.next_unit_index as usize) < MAX_UNITS && u.unit_type != START_LOCATION_TYPE {
                let _ = self.create_unit(u.unit_type, u.owner, u.x as i32, u.y as i32);
                proof {
                    let tags1 = placed_from(start.next_unit_index, chk_units@.take(i + 1), start.unit_types).1;
                    let placed1 = slot_units(chk_units@.take(i + 1));
                    assert(tags1 == tags0.push(before.next_unit_index as u16));
                    assert(placed1 == placed0.push(u));
                    assert forall|k: int| 0 <= k < tags1.len() implies created_at(
                        start,
                        self@,
                        #[trigger] tags1[k] as int,
                        placed1[k].unit_type,
                        placed1[k].owner,
                        placed1[k].x as i32,
                        placed1[k].y as i32,
                        false,
                    ) by {
                        if k < tags0.len() {
                            assert(tags1[k] == tags0[k]);
                            assert(placed1[k] == placed0[k]);
                            assert(self@.units[tags0[k] as int] == before.units[tags0[k] as int]);
                            assert(created_at(start, before, tags0[k] as int, placed0[k].unit_type,
                                placed0[k].owner, placed0[k].x as i32, placed0[k].y as i32, false));
                        } else {
                            assert(k == tags0.len());
                            assert(tags1[k] == before.next_unit_index as u16);
                            assert(placed1[k] == u);
                            assert(created_at(before, self@, before.next_unit_index, u.unit_type,
                                u.owner, u.x as i32, u.y as i32, false));
                        }
                    }
                }
            } else {
                proof {
                    if u.unit_type == START_LOCATION_TYPE {
                        assert(slot_units(chk_units@.take(i + 1)) == placed0);
                    } else {
                        assert(slot_units(chk_units@.take(i + 1)) == placed0.push(u));
                    }
                }
            }
            i += 1;
        }
        assert(chk_units@.take(i as int) =~= chk_units@);
        Ok(())
    }
}

/// Whether slot `i` is named, by index, among the tags `sel`.
pub open spec fn selects(sel: Seq<u16>, i: int) -> bool {
    exists|k: int| 0 <= k < sel.len() && id_of_tag(#[trigger] sel[k]).0 == i
}

/// Whether a slot holds a live unit.
pub open spec fn is_live(slot: Option<UnitState>) -> bool {
    slot is Some && slot.unwrap().alive
}

/// An order a player gives the units it has selected.
#[derive(Debug, Clone, Copy, PartialEq, Eq, Structural)]
pub enum UnitOrder {
    /// Move to a pixel, dropping any attack target.
    MoveTo(u16, u16),
    /// Attack the unit with this tag.
    AttackTag(u16),
    /// Stop moving and attacking.
    Halt,
}

/// Unit `b` is unit `a` after `order`.
pub open spec fn ordered(a: UnitState, b: UnitState, order: UnitOrder) -> bool {
    match order {
        UnitOrder::MoveTo(x, y) => {
            &&& b == UnitState {
                attack_target: None,
                move_target: Some((x, y)),
                move_state: MoveState::Moving,
                waypoints: b.waypoints,
                waypoint_index: 0,
                ..a
            }
            &&& b.waypoints@ == seq![(x as i32, y as i32)]
        },
        UnitOrder::AttackTag(t) => b == UnitState { attack_target: Some(t), ..a },
        UnitOrder::Halt => {
            &&& b == UnitState {
                move_target: None,
                move_state: MoveState::AtRest,
                velocity: XY { x: Fp8(0), y: Fp8(0) },
                current_speed: Fp8(0),
                waypoints: b.waypoints,
                waypoint_index: 0,
                attack_target: None,
                ..a
            }
            &&& b.waypoints@.len() == 0
        },
    }
}

/// The slots after `order` reaches every live unit named in `sel`.
pub open spec fn orders_given(
    before: Seq<Option<UnitState>>,
    after: Seq<Option<UnitState>>,
    sel: Seq<u16>,
    order: UnitOrder,
) -> bool {
    &&& after.len() == before.len()
    &&& forall|i: int|
        0 <= i < before.len() ==> if selects(sel, i) && is_live(before[i]) {
            after[i] is Some && ordered(before[i].unwrap(), after[i].unwrap(), order)
        } else {
            #[trigger] after[i] == before[i]
        }
}

/// Takes the value out of slot `i`, leaving nothing there.
fn take_slot(units: &mut Vec<Option<UnitState>>, i: usize) -> (r: Option<UnitState>)
    requires
        i < old(units)@.len(),
    ensures
        r == old(units)@[i as int],
        final(units)@ == old(units)@.update(i as int, None),
{
    units.push(None);
    let r = units.swap_remove(i);
    assert(units@ =~= old(units)@.update(i as int, None));
    r
}

/// Takes a player's state out, leaving a default one in its place.
fn take_player(players: &mut Vec<PlayerState>, i: usize) -> (r: PlayerState)
    requires
        i < old(players)@.len(),
    ensures
        r == old(players)@[i as int],
        final(players)@.len() == old(players)@.len(),
        forall|k: int| 0 <= k < old(players)@.len() && k != i ==> #[trigger] final(players)@[k] == old(players)@[k],
{
    let r = players.remove(i);
    players.insert(i, PlayerState::default());
    r
}

/// Gives a unit an order.
fn apply_order(u: &mut UnitState, order: UnitOrder)
    ensures
        ordered(*old(u), *final(u), order),
{
    match order {
        UnitOrder::MoveTo(x, y) => {
            u.attack_target = None;
            u.move_target = Some((x, y));
            u.move_state = MoveState::Moving;
            let mut w: Vec<(i32, i32)> = Vec::new();
            w.push((x as i32, y as i32));
            u.waypoints = w;
            u.waypoint_index = 0;
        },
        UnitOrder::AttackTag(t) => {
            u.attack_target = Some(t);
        },
        UnitOrder::Halt => {
            u.move_target = None;
            u.move_state = MoveState::AtRest;
            u.velocity = XY::zero();
            u.current_speed = Fp8::zero();
            u.waypoints.clear();
            u.waypoint_index = 0;
            u.attack_target = None;
        },
    }
}

/// A copy of a list of tags.
fn copy_tags(v: &Vec<u16>) -> (r: Vec<u16>)
    ensures
        r@ == v@,
{
    let mut r: Vec<u16> = Vec::new();
    let mut i: usize = 0;
    while i < v.len()
        invariant
            i <= v@.len(),
            r@ == v@.take(i as int),
        decreases v@.len() - i,
    {
        r.push(v[i]);
        i += 1;
        assert(r@ =~= v@.take(i as int));
    }
    assert(v@.take(i as int) =~= v@);
    r
}

/// `sel` without any of `tags`, in order.
pub open spec fn without_tags(sel: Seq<u16>, tags: Seq<u16>) -> Seq<u16>
    decreases sel.len(),
{
    if sel.len() == 0 {
        Seq::empty()
    } else if tags.contains(sel.last()) {
        without_tags(sel.drop_last(), tags)
    } else {
        without_tags(sel.drop_last(), tags).push(sel.last())
    }
}

impl Game {
    /// The current frame.
    pub fn current_frame(&self) -> (r: u32)
        ensures
            r == self@.current_frame,
    {
        self.current_frame
    }

    /// The live unit in the slot a tag names, if there is one.
    pub fn unit_by_tag(&self, tag: u16) -> (r: Option<&UnitState>)
        requires
            self@.wf(),
        ensures
            r is Some <==> live_unit(self@, tag) is Some,
            r is Some ==> *r.unwrap() == live_unit(self@, tag).unwrap(),
            r is Some ==> r.unwrap().id@.0 == id_of_tag(tag).0,
    {
        let i = (tag & 0x07FF) as usize;
        assert(tag & 0x07FF == id_of_tag(tag).0);
        if i < self.units.len() {
            match &self.units[i] {
                Some(u) => {
                    if u.alive {
                        Some(u)
                    } else {
                        None
                    }
                },
                None => None,
            }
        } else {
            None
        }
    }

    /// Number of live units.
    pub fn unit_count(&self) -> (r: usize)
        requires
            self@.wf(),
        ensures
            r == live_count(self@.units, MAX_UNITS as int),
    {
        let mut n: usize = 0;
        let mut i: usize = 0;
        while i < self.units.len()
            invariant
                self@.wf(),
                i <= MAX_UNITS,
                n == live_count(self@.units, i as int),
                n <= i,
            decreases MAX_UNITS - i,
        {
            match &self.units[i] {
                Some(u) => {
                    if u.alive {
                        n += 1;
                    }
                },
                None => {},
            }
            i += 1;
        }
        n
    }

    /// A player's state, for player ids below the number of players.
    pub fn player_state(&self, player_id: u8) -> (r: Option<&PlayerState>)
        requires
            self@.wf(),
        ensures
            (player_id as int) < MAX_PLAYERS ==> r == Some(&self@.players[player_id as int]),
            (player_id as int) >= MAX_PLAYERS ==> r is None,
    {
        if (player_id as usize) < self.player_states.len() {
            Some(&self.player_states[player_id as usize])
        } else {
            None
        }
    }

    /// Sets a player's minerals and gas; other player ids are ignored.
    pub fn set_player_resources(&mut self, player_id: u8, minerals: i32, gas: i32)
        requires
            old(self)@.wf(),
        ensures
            final(self)@.wf(),
            final(self)@.same_tables(old(self)@),
            final(self)@.units == old(self)@.units,
            final(self)@.next_unit_index == old(self)@.next_unit_index,
            final(self)@.current_frame == old(self)@.current_frame,
            final(self)@.selection == old(self)@.selection,
            forall|p: int|
                0 <= p < MAX_PLAYERS && p != player_id ==> #[trigger] final(self)@.players[p] == old(self)@.players[p],
            (player_id as int) < MAX_PLAYERS ==> (final(self)@.players[player_id as int] == (PlayerState {
                minerals,
                gas,
                ..old(self)@.players[player_id as int]
            })),
    {
        if (player_id as usize) < MAX_PLAYERS {
            let p = player_id as usize;
            let mut ps = take_player(&mut self.player_states, p);
            ps.minerals = minerals;
            ps.gas = gas;
            self.player_states.set(p, ps);
        }
    }

    /// Gives every live unit named in player `p`'s selection an order.
    fn order_selected(&mut self, p: usize, order: UnitOrder)
        requires
            old(self)@.wf(),
            p < MAX_PLAYERS,
        ensures
            final(self)@.wf(),
            final(self)@.same_tables(old(self)@),
            final(self)@.next_unit_index == old(self)@.next_unit_index,
            final(self)@.current_frame == old(self)@.current_frame,
            final(self)@.selection == old(self)@.selection,
            final(self)@.players == old(self)@.players,
            orders_given(old(self)@.units, final(self)@.units, old(self)@.selection[p as int], order),
    {
        let tags = copy_tags(&self.selection[p]);
        let ghost sel = old(self)@.selection[p as int];
        assert(tags@ == sel);
        let mut j: usize = 0;
        while j < tags.len()
            invariant
                self@.wf(),
                self@.same_tables(old(self)@),
                self@.next_unit_index == old(self)@.next_unit_index,
                self@.current_frame == old(self)@.current_frame,
                self@.selection == old(self)@.selection,
                self@.players == old(self)@.players,
                j <= tags@.len(),
                tags@ == sel,
                orders_given(old(self)@.units, self@.units, sel.take(j as int), order),
            decreases tags@.len() - j,
        {
            let tag = tags[j];
            let i = (tag & 0x07FF) as usize;
            assert(tag & 0x07FF == id_of_tag(tag).0);
            let ghost mid = self@.units;
            if i < self.units.len() {
                let slot = take_slot(&mut self.units, i);
                match slot {
                    Some(u) => {
                        let mut u = u;
                        if u.alive {
                            apply_order(&mut u, order);
                        }
                        self.units.set(i, Some(u));
                    },
                    None => {
                        self.units.set(i, None);
                    },
                }
            }
            proof {
                let s0 = sel.take(j as int);
                let s1 = sel.take(j + 1);
                assert forall|k: int| 0 <= k < old(self)@.units.len() implies (if selects(s1, k) && is_live(old(self)@.units[k]) {
                    self@.units[k] is Some && ordered(old(self)@.units[k].unwrap(), self@.units[k].unwrap(), order)
                } else {
                    #[trigger] self@.units[k] == old(self)@.units[k]
                }) by {
                    if k == i {
                        assert(s1[j as int] == tag);
                        assert(selects(s1, k));
                    } else {
                        assert(self@.units[k] == mid[k]);
                        if selects(s1, k) {
                            let w = choose|w: int| 0 <= w < s1.len() && id_of_tag(#[trigger] s1[w]).0 == k;
                            assert(w < j);
                            assert(s0[w] == s1[w]);
                            assert(selects(s0, k));
                        } else {
                            if selects(s0, k) {
                                let w = choose|w: int| 0 <= w < s0.len() && id_of_tag(#[trigger] s0[w]).0 == k;
                                assert(s1[w] == s0[w]);
                            }
                        }
                    }
                }
            }
            j += 1;
        }
        assert(sel.take(j as int) =~= sel);
    }
}

/// Whether a slot holds a live building with room in its queue.
pub open spec fn can_train(slot: Option<UnitState>) -> bool {
    is_live(slot) && slot.unwrap().is_building && slot.unwrap().build_queue@.len() < 5
}

/// The first slot, in selection order, that can take a unit to train.
pub open spec fn trainer(units: Seq<Option<UnitState>>, sel: Seq<u16>) -> Option<int>
    decreases sel.len(),
{
    if sel.len() == 0 {
        None
    } else {
        let i = id_of_tag(sel[0]).0 as int;
        if i < units.len() && can_train(units[i]) {
            Some(i)
        } else {
            trainer(units, sel.drop_first())
        }
    }
}

/// Whether a player has the minerals and gas a unit type costs.
pub open spec fn affords(ps: PlayerState, st: UnitStats) -> bool {
    ps.minerals >= st.mineral_cost && ps.gas >= st.gas_cost
}

/// A player's state after paying for a unit type.
pub open spec fn paid(ps: PlayerState, st: UnitStats) -> PlayerState {
    PlayerState { minerals: (ps.minerals - st.mineral_cost) as i32, gas: (ps.gas - st.gas_cost) as i32, ..ps }
}

/// Unit `b` is unit `a` turned into a unit of `unit_type`: that type's
/// movement, hit points, shields, armour, size and weapons, with no morph
/// pending.
pub open spec fn morphed(v: GameView, a: UnitState, b: UnitState, unit_type: u16) -> bool {
    let ut = type_of(v.unit_types, unit_type);
    let fl = flingy_of(v.unit_types, v.flingy_types, unit_type);
    let st = stats_of(v.stats, unit_type);
    b == UnitState {
        unit_type,
        top_speed: fl.top_speed,
        acceleration: fl.acceleration,
        turn_rate: fl.turn_rate,
        movement_type: fl.movement_type,
        hp: ut.hitpoints,
        max_hp: ut.hitpoints,
        armor: ut.armor,
        unit_size: st.unit_size,
        is_air: st.is_air,
        ground_weapon: ut.ground_weapon,
        air_weapon: ut.air_weapon,
        shields: start_shields(st) as i32,
        max_shields: start_shields(st) as i32,
        morph_timer: 0,
        morph_target: None,
        energy: start_energy_spec(unit_type) as i32,
        max_energy: max_energy_spec(unit_type) as i32,
        is_worker: is_worker_spec(unit_type),
        collision_radius: radius_for(unit_type, ut.is_building),
        ..a
    }
}

/// Turns a unit into a unit of another type.
fn morph_unit(v: &Game, u: &mut UnitState, unit_type: u16)
    ensures
        morphed(v@, *old(u), *final(u), unit_type),
{
    let fl = match v.data.flingy_for_unit(unit_type) {
        Some(f) => *f,
        None => FlingyType {
            top_speed: 0,
            acceleration: 0,
            halt_distance: 0,
            turn_rate: 0,
            movement_type: 0,
        },
    };
    let ut = v.type_data(unit_type);
    let st = v.stats_for(unit_type);
    let shield_hp: i32 = if st.has_shield {
        st.shield_points as i32 * 256
    } else {
        0
    };
    u.unit_type = unit_type;
    u.top_speed = fl.top_speed;
    u.acceleration = fl.acceleration;
    u.turn_rate = fl.turn_rate;
    u.movement_type = fl.movement_type;
    u.hp = ut.hitpoints;
    u.max_hp = ut.hitpoints;
    u.armor = ut.armor;
    u.unit_size = st.unit_size;
    u.is_air = st.is_air;
    u.ground_weapon = ut.ground_weapon;
    u.air_weapon = ut.air_weapon;
    u.shields = shield_hp;
    u.max_shields = shield_hp;
    u.morph_timer = 0;
    u.morph_target = None;
    u.energy = energy_for_type(unit_type);
    u.max_energy = max_energy_for_type(unit_type);
    u.is_worker = is_worker_type(unit_type);
    u.collision_radius = collision_radius_for_type(unit_type, ut.is_building);
}

/// The pixel at the centre of a build tile.
pub open spec fn tile_centre(t: u16) -> i32 {
    (t * 32 + 16) as i32
}

/// Player state `b` is `a` with tech `tech` researched.
pub open spec fn researched(a: PlayerState, b: PlayerState, tech: u8) -> bool {
    &&& forall|t: u8| tech_bit(b.researched_techs, t) == (tech_bit(a.researched_techs, t) || (t == tech && tech < 64))
    &&& b.minerals == a.minerals && b.gas == a.gas
    &&& b.supply_used == a.supply_used && b.supply_max == a.supply_max
    &&& b.upgrade_levels@ == a.upgrade_levels@
}

/// Player state `b` is `a` with upgrade `id` one level higher (at most 255).
pub open spec fn upgraded(a: PlayerState, b: PlayerState, id: u8) -> bool {
    &&& b.upgrade_levels@ == if (id as int) < a.upgrade_levels@.len() {
        a.upgrade_levels@.update(
            id as int,
            if a.upgrade_levels@[id as int] == u8::MAX {
                u8::MAX
            } else {
                (a.upgrade_levels@[id as int] + 1) as u8
            },
        )
    } else {
        a.upgrade_levels@
    }
    &&& b.minerals == a.minerals && b.gas == a.gas
    &&& b.supply_used == a.supply_used && b.supply_max == a.supply_max
    &&& b.researched_techs == a.researched_techs
}

/// Game `b` is game `a` with only player `p`'s state changed, by `f`.
pub open spec fn player_changed(a: GameView, b: GameView, p: int, f: spec_fn(PlayerState, PlayerState) -> bool) -> bool {
    &&& b.units == a.units && b.next_unit_index == a.next_unit_index && b.selection == a.selection
    &&& b.players.len() == a.players.len()
    &&& forall|k: int| 0 <= k < a.players.len() && k != p ==> #[trigger] b.players[k] == a.players[k]
    &&& f(a.players[p], b.players[p])
}

/// What a train order does: the first selected live building with room
/// queues the unit, and its player pays when that queue was empty; nothing
/// happens when the player cannot pay or no building can take it.
pub open spec fn train_effect(a: GameView, b: GameView, p: int, unit_type: u16) -> bool {
    let st = stats_of(a.stats, unit_type);
    let ps = a.players[p];
    let found = trainer(a.units, a.selection[p]);
    &&& b.selection == a.selection && b.next_unit_index == a.next_unit_index
    &&& if affords(ps, st) && found is Some {
        let i = found.unwrap();
        let u = a.units[i].unwrap();
        let v = b.units[i].unwrap();
        &&& b.units.len() == a.units.len()
        &&& forall|k: int| 0 <= k < a.units.len() && k != i ==> #[trigger] b.units[k] == a.units[k]
        &&& b.units[i] is Some
        &&& v == UnitState { build_queue: v.build_queue, ..u }
        &&& v.build_queue@ == u.build_queue@.push(unit_type)
        &&& b.players == if u.build_queue@.len() == 0 {
            a.players.update(p, paid(ps, st))
        } else {
            a.players
        }
    } else {
        b.units == a.units && b.players == a.players
    }
}

/// What a build order does: a player that can pay does, and the building is
/// created at the centre of the tile, under construction for its build time
/// if it has one, adding the supply it provides.
pub open spec fn build_effect(a: GameView, b: GameView, p: int, x: u16, y: u16, unit_type: u16) -> bool {
    let st = stats_of(a.stats, unit_type);
    let ut = type_of(a.unit_types, unit_type);
    let ps = a.players[p];
    let (px, py) = (tile_centre(x), tile_centre(y));
    &&& b.selection == a.selection
    &&& if !affords(ps, st) {
        b.units == a.units && b.players == a.players && b.next_unit_index == a.next_unit_index
    } else {
        &&& b.next_unit_index == create_spec(a.unit_types, a.next_unit_index, unit_type).0
        &&& same_outside(a.units, b.units, a.next_unit_index, b.next_unit_index)
        &&& b.next_unit_index == a.next_unit_index + 2 ==> created_at(
            a,
            b,
            a.next_unit_index + 1,
            turret_of(a.unit_types, unit_type),
            p as u8,
            px,
            py,
            true,
        )
        &&& if a.next_unit_index < MAX_UNITS {
            let v = b.units[a.next_unit_index].unwrap();
            &&& b.units[a.next_unit_index] is Some
            &&& fresh_unit(
                a,
                UnitState { under_construction: false, build_timer: 0, ..v },
                a.next_unit_index,
                unit_type,
                p as u8,
                px,
                py,
                false,
            )
            &&& v.under_construction == (ut.build_time > 0)
            &&& v.build_timer == ut.build_time
            &&& b.players == a.players.update(
                p,
                PlayerState { supply_max: (ps.supply_max + half_supply_spec(unit_type)) as i32, ..paid(ps, st) },
            )
        } else {
            b.players == a.players.update(p, paid(ps, st))
        }
    }
}

/// What a morph order does: a player that can pay does, and the first
/// selected unit, if live, starts morphing for the new type's build time, or
/// turns into it at once when that time is zero.
pub open spec fn morph_effect(a: GameView, b: GameView, p: int, unit_type: u16) -> bool {
    let st = stats_of(a.stats, unit_type);
    let ut = type_of(a.unit_types, unit_type);
    let ps = a.players[p];
    let sel = a.selection[p];
    &&& b.selection == a.selection && b.next_unit_index == a.next_unit_index
    &&& if !affords(ps, st) {
        b.units == a.units && b.players == a.players
    } else {
        &&& b.players == a.players.update(p, paid(ps, st))
        &&& if sel.len() > 0 && id_of_tag(sel[0]).0 < MAX_UNITS && is_live(a.units[id_of_tag(sel[0]).0 as int]) {
            let i = id_of_tag(sel[0]).0 as int;
            let u = a.units[i].unwrap();
            let v = b.units[i].unwrap();
            &&& b.units.len() == a.units.len()
            &&& forall|k: int| 0 <= k < a.units.len() && k != i ==> #[trigger] b.units[k] == a.units[k]
            &&& b.units[i] is Some
            &&& if ut.build_time > 0 {
                v == UnitState { morph_timer: ut.build_time, morph_target: Some(unit_type), ..u }
            } else {
                morphed(a, u, v, unit_type)
            }
        } else {
            b.units == a.units
        }
    }
}

impl Game {
    /// Queues a unit in the first selected building that can take it.
    fn issue_train(&mut self, p: usize, unit_type: u16)
        requires
            old(self)@.wf(),
            p < MAX_PLAYERS,
        ensures
            final(self)@.wf(),
            final(self)@.same_tables(old(self)@),
            final(self)@.current_frame == old(self)@.current_frame,
            train_effect(old(self)@, final(self)@, p as int, unit_type),
    {
        let ghost a = self@;
        let st = self.stats_for(unit_type);
        let minerals = self.player_states[p].minerals;
        let gas = self.player_states[p].gas;
        if minerals < st.mineral_cost as i32 || gas < st.gas_cost as i32 {
            return;
        }
        let tags = copy_tags(&self.selection[p]);
        let ghost sel = old(self)@.selection[p as int];
        assert(sel.skip(0) =~= sel);
        let mut j: usize = 0;
        while j < tags.len()
            invariant
                *self == *old(self),
                st == stats_of(self@.stats, unit_type),
                affords(self@.players[p as int], st),
                sel == old(self)@.selection[p as int],
                tags@ == sel,
                j <= tags@.len(),
                trainer(self@.units, sel) == trainer(self@.units, sel.skip(j as int)),
                self@.wf(),
                p < MAX_PLAYERS,
            decreases tags@.len() - j,
        {
            let tag = tags[j];
            let i = (tag & 0x07FF) as usize;
            assert(tag & 0x07FF == id_of_tag(tag).0);
            proof {
                assert(sel.skip(j as int)[0] == tag);
                assert(sel.skip(j as int).drop_first() =~= sel.skip(j + 1));
            }
            if i < self.units.len() {
                let ok = match &self.units[i] {
                    Some(u) => u.alive && u.is_building && u.build_queue.len() < 5,
                    None => false,
                };
                assert(ok == can_train(old(self)@.units[i as int]));
                if ok {
                    assert(trainer(old(self)@.units, sel) == Some(i as int));
                    assert(trainer(old(self)@.units, old(self)@.selection[p as int]) == Some(i as int));
                    let slot = take_slot(&mut self.units, i);
                    let mut u = slot.unwrap();
                    let was_empty = u.build_queue.len() == 0;
                    u.build_queue.push(unit_type);
                    self.units.set(i, Some(u));
                    if was_empty {
                        let mut ps = take_player(&mut self.player_states, p);
                        ps.minerals = ps.minerals - st.mineral_cost as i32;
                        ps.gas = ps.gas - st.gas_cost as i32;
                        self.player_states.set(p, ps);
                        assert(self@.players =~= old(self)@.players.update(p as int, paid(old(self)@.players[p as int], st)));
                    }
                    proof {
                        let u0 = old(self)@.units[i as int].unwrap();
                        let v = self@.units[i as int].unwrap();
                        assert(self@.units[i as int] is Some);
                        assert(v.build_queue@ == u0.build_queue@.push(unit_type));
                        assert(v == UnitState { build_queue: v.build_queue, ..u0 });
                        assert(affords(old(self)@.players[p as int], st));
                        assert forall|k: int| 0 <= k < old(self)@.units.len() && k != i implies #[trigger] self@.units[k] == old(self)@.units[k] by {}
                        if u0.build_queue@.len() == 0 {
                            assert(self@.players == old(self)@.players.update(p as int, paid(old(self)@.players[p as int], st)));
                        } else {
                            assert(self@.players == old(self)@.players);
                        }

                    }
                    return;
                }
            }
            j += 1;
        }
        assert(sel.skip(j as int).len() == 0);
    }

    /// Builds a unit of `unit_type` at the centre of build tile (x, y).
    fn issue_build(&mut self, p: usize, x: u16, y: u16, unit_type: u16)
        requires
            old(self)@.wf(),
            p < MAX_PLAYERS,
            old(self)@.players[p as int].supply_max <= i32::MAX - 20,
        ensures
            final(self)@.wf(),
            final(self)@.same_tables(old(self)@),
            final(self)@.current_frame == old(self)@.current_frame,
            build_effect(old(self)@, final(self)@, p as int, x, y, unit_type),
    {
        let st = self.stats_for(unit_type);
        let ut = self.type_data(unit_type);
        let minerals = self.player_states[p].minerals;
        let gas = self.player_states[p].gas;
        if minerals < st.mineral_cost as i32 || gas < st.gas_cost as i32 {
            return;
        }
        let mut ps = take_player(&mut self.player_states, p);
        ps.minerals = ps.minerals - st.mineral_cost as i32;
        ps.gas = ps.gas - st.gas_cost as i32;
        self.player_states.set(p, ps);
        let ghost paid_view = self@;
        assert(paid_view.players =~= old(self)@.players.update(p as int, paid(old(self)@.players[p as int], st)));
        let px: i32 = x as i32 * 32 + 16;
        let py: i32 = y as i32 * 32 + 16;
        let tag = self.create_unit(unit_type, p as u8, px, py);
        let ghost created = self@;
        match tag {
            Some(index) => {
                let i = index as usize;
                assert(i == old(self)@.next_unit_index);
                let slot = take_slot(&mut self.units, i);
                let mut u = slot.unwrap();
                if ut.build_time > 0 {
                    u.under_construction = true;
                    u.build_timer = ut.build_time;
                }
                self.units.set(i, Some(u));
                let mut ps2 = take_player(&mut self.player_states, p);
                assert(half_supply_spec(unit_type) <= 20);
                ps2.add_supply(unit_type);
                self.player_states.set(p, ps2);
                proof {
                    assert(self@.players =~= old(self)@.players.update(
                        p as int,
                        PlayerState {
                            supply_max: (old(self)@.players[p as int].supply_max + half_supply_spec(unit_type)) as i32,
                            ..paid(old(self)@.players[p as int], st)
                        },
                    ));
                    assert forall|k: int|
                        0 <= k < MAX_UNITS && !(old(self)@.next_unit_index <= k < self@.next_unit_index) implies
                        #[trigger] old(self)@.units[k] == self@.units[k] by {
                        assert(paid_view.units[k] == old(self)@.units[k]);
                    }
                    if self@.next_unit_index == old(self)@.next_unit_index + 2 {
                        let t = old(self)@.next_unit_index + 1;
                        assert(self@.units[t] == created.units[t]);
                    }
                    let v = self@.units[i as int].unwrap();
                    assert((UnitState { under_construction: false, build_timer: 0, ..v }) == created.units[i as int].unwrap());
                }
            },
            None => {},
        }
    }

    /// Pays for and starts a morph of the first selected unit.
    fn issue_morph(&mut self, p: usize, unit_type: u16)
        requires
            old(self)@.wf(),
            p < MAX_PLAYERS,
        ensures
            final(self)@.wf(),
            final(self)@.same_tables(old(self)@),
            final(self)@.current_frame == old(self)@.current_frame,
            morph_effect(old(self)@, final(self)@, p as int, unit_type),
    {
        let st = self.stats_for(unit_type);
        let ut = self.type_data(unit_type);
        let minerals = self.player_states[p].minerals;
        let gas = self.player_states[p].gas;
        if minerals < st.mineral_cost as i32 || gas < st.gas_cost as i32 {
            return;
        }
        let mut ps = take_player(&mut self.player_states, p);
        ps.minerals = ps.minerals - st.mineral_cost as i32;
        ps.gas = ps.gas - st.gas_cost as i32;
        self.player_states.set(p, ps);
        assert(self@.players =~= old(self)@.players.update(p as int, paid(old(self)@.players[p as int], st)));
        if self.selection[p].len() == 0 {
            return;
        }
        let tag = self.selection[p][0];
        let i = (tag & 0x07FF) as usize;
        assert(tag & 0x07FF == id_of_tag(tag).0);
        let live = i < self.units.len() && match &self.units[i] {
            Some(u) => u.alive,
            None => false,
        };
        if !live {
            return;
        }
        let slot = take_slot(&mut self.units, i);
        let mut u = slot.unwrap();
        if ut.build_time > 0 {
            u.morph_timer = ut.build_time;
            u.morph_target = Some(unit_type);
        } else {
            morph_unit(&*self, &mut u, unit_type);
        }
        self.units.set(i, Some(u));
    }

    /// Sets player `p`'s selection.
    fn set_selection(&mut self, p: usize, tags: Vec<u16>)
        requires
            old(self)@.wf(),
            p < SELECTION_SLOTS,
        ensures
            final(self)@.wf(),
            final(self)@.same_tables(old(self)@),
            final(self)@.current_frame == old(self)@.current_frame,
            final(self)@.units == old(self)@.units,
            final(self)@.next_unit_index == old(self)@.next_unit_index,
            final(self)@.players == old(self)@.players,
            final(self)@.selection == old(self)@.selection.update(p as int, tags@),
    {
        self.selection.set(p, tags);
        assert(self@.selection =~= old(self)@.selection.update(p as int, tags@));
    }
}

/// What a command from player `p` does to the game.
pub open spec fn command_effect(a: GameView, b: GameView, p: int, cmd: EngineCommand) -> bool {
    match cmd {
        EngineCommand::Select(tags) => {
            &&& b.units == a.units && b.next_unit_index == a.next_unit_index && b.players == a.players
            &&& b.selection == a.selection.update(p, tags@)
        },
        EngineCommand::SelectAdd(tags) => {
            &&& b.units == a.units && b.next_unit_index == a.next_unit_index && b.players == a.players
            &&& b.selection == a.selection.update(p, a.selection[p] + tags@)
        },
        EngineCommand::SelectRemove(tags) => {
            &&& b.units == a.units && b.next_unit_index == a.next_unit_index && b.players == a.players
            &&& b.selection == a.selection.update(p, without_tags(a.selection[p], tags@))
        },
        EngineCommand::HotkeyAssign { group } => {
            &&& b.units == a.units && b.next_unit_index == a.next_unit_index && b.players == a.players
            &&& b.selection == if (group as int) < HOTKEY_GROUPS {
                a.selection.update(hotkey_slot(p, group as int), a.selection[p])
            } else {
                a.selection
            }
        },
        EngineCommand::HotkeyRecall { group } => {
            &&& b.units == a.units && b.next_unit_index == a.next_unit_index && b.players == a.players
            &&& b.selection == if (group as int) < HOTKEY_GROUPS {
                a.selection.update(p, a.selection[hotkey_slot(p, group as int)])
            } else {
                a.selection
            }
        },
        EngineCommand::Move { x, y } => {
            &&& b.next_unit_index == a.next_unit_index && b.players == a.players && b.selection == a.selection
            &&& orders_given(a.units, b.units, a.selection[p], UnitOrder::MoveTo(x, y))
        },
        EngineCommand::Attack { target_tag } => {
            &&& b.next_unit_index == a.next_unit_index && b.players == a.players && b.selection == a.selection
            &&& orders_given(a.units, b.units, a.selection[p], UnitOrder::AttackTag(target_tag))
        },
        EngineCommand::Stop => {
            &&& b.next_unit_index == a.next_unit_index && b.players == a.players && b.selection == a.selection
            &&& orders_given(a.units, b.units, a.selection[p], UnitOrder::Halt)
        },
        EngineCommand::Train { unit_type } => train_effect(a, b, p, unit_type),
        EngineCommand::Build { x, y, unit_type } => build_effect(a, b, p, x, y, unit_type),
        EngineCommand::UnitMorph { unit_type } | EngineCommand::BuildingMorph { unit_type } => morph_effect(
            a,
            b,
            p,
            unit_type,
        ),
        EngineCommand::Research { tech_type } => player_changed(
            a,
            b,
            p,
            |x: PlayerState, y: PlayerState| researched(x, y, tech_type),
        ),
        EngineCommand::Upgrade { upgrade_type } => player_changed(
            a,
            b,
            p,
            |x: PlayerState, y: PlayerState| upgraded(x, y, upgrade_type),
        ),
    }
}

/// Whether a command can be applied for player `p`: a build needs room for
/// the supply a building may add.
pub open spec fn command_allowed(v: GameView, p: int, cmd: EngineCommand) -> bool {
    0 <= p < MAX_PLAYERS && (cmd is Build ==> v.players[p].supply_max <= i32::MAX - 20)
}

impl Game {
    /// Applies a command from a player. A hotkey assignment stores the
    /// player's selection in one of its ten groups and a recall makes that
    /// group the selection; other group numbers are ignored. A move order
    /// sends each unit straight to the target point; `set_waypoints` hands in
    /// a path found for it.
    pub fn apply_command(&mut self, player_id: u8, command: &EngineCommand)
        requires
            old(self)@.wf(),
            command_allowed(old(self)@, player_id as int, *command),
        ensures
            final(self)@.wf(),
            final(self)@.same_tables(old(self)@),
            final(self)@.current_frame == old(self)@.current_frame,
            command_effect(old(self)@, final(self)@, player_id as int, *command),
    {
        let p = player_id as usize;
        match command {
            EngineCommand::Select(tags) => {
                let t = copy_tags(tags);
                self.set_selection(p, t);
            },
            EngineCommand::SelectAdd(tags) => {
                let mut t = copy_tags(&self.selection[p]);
                let mut k: usize = 0;
                let ghost base = t@;
                while k < tags.len()
                    invariant
                        k <= tags@.len(),
                        t@ == base + tags@.take(k as int),
                    decreases tags@.len() - k,
                {
                    t.push(tags[k]);
                    k += 1;
                    assert(t@ =~= base + tags@.take(k as int));
                }
                assert(tags@.take(k as int) =~= tags@);
                self.set_selection(p, t);
            },
            EngineCommand::SelectRemove(tags) => {
                let cur = copy_tags(&self.selection[p]);
                let mut t: Vec<u16> = Vec::new();
                let mut k: usize = 0;
                while k < cur.len()
                    invariant
                        k <= cur@.len(),
                        t@ == without_tags(cur@.take(k as int), tags@),
                    decreases cur@.len() - k,
                {
                    proof {
                        assert(cur@.take(k + 1).drop_last() =~= cur@.take(k as int));
                        assert(cur@.take(k + 1).last() == cur@[k as int]);
                    }
                    let c = cur[k];
                    let mut found = false;
                    let mut m: usize = 0;
                    while m < tags.len()
                        invariant
                            m <= tags@.len(),
                            found == tags@.take(m as int).contains(c),
                        decreases tags@.len() - m,
                    {
                        let ghost s0 = tags@.take(m as int);
                        let ghost s1 = tags@.take(m + 1);
                        proof {
                            assert(s1 =~= s0.push(tags@[m as int]));
                            if s0.contains(c) {
                                let w = choose|w: int| 0 <= w < s0.len() && s0[w] == c;
                                assert(s1[w] == c);
                            }
                            if tags@[m as int] == c {
                                assert(s1[m as int] == c);
                            } else if s1.contains(c) {
                                let w = choose|w: int| 0 <= w < s1.len() && s1[w] == c;
                                assert(w < m);
                                assert(s0[w] == c);
                            }
                        }
                        if tags[m] == c {
                            found = true;
                        }
                        m += 1;
                    }
                    assert(tags@.take(m as int) =~= tags@);
                    if !found {
                        t.push(c);
                    }
                    k += 1;
                }
                assert(cur@.take(k as int) =~= cur@);
                self.set_selection(p, t);
            },
            EngineCommand::HotkeyAssign { group } => {
                if (*group as usize) < HOTKEY_GROUPS {
                    let slot = MAX_PLAYERS + p * HOTKEY_GROUPS + *group as usize;
                    let t = copy_tags(&self.selection[p]);
                    self.set_selection(slot, t);
                }
            },
            EngineCommand::HotkeyRecall { group } => {
                if (*group as usize) < HOTKEY_GROUPS {
                    let slot = MAX_PLAYERS + p * HOTKEY_GROUPS + *group as usize;
                    let t = copy_tags(&self.selection[slot]);
                    self.set_selection(p, t);
                }
            },
            EngineCommand::Move { x, y } => {
                self.order_selected(p, UnitOrder::MoveTo(*x, *y));
            },
            EngineCommand::Attack { target_tag } => {
                self.order_selected(p, UnitOrder::AttackTag(*target_tag));
            },
            EngineCommand::Stop => {
                self.order_selected(p, UnitOrder::Halt);
            },
            EngineCommand::Train { unit_type } => {
                self.issue_train(p, *unit_type);
            },
            EngineCommand::Build { x, y, unit_type } => {
                self.issue_build(p, *x, *y, *unit_type);
            },
            EngineCommand::UnitMorph { unit_type } => {
                self.issue_morph(p, *unit_type);
            },
            EngineCommand::BuildingMorph { unit_type } => {
                self.issue_morph(p, *unit_type);
            },
            EngineCommand::Research { tech_type } => {
                let mut ps = take_player(&mut self.player_states, p);
                ps.research_tech(*tech_type);
                self.player_states.set(p, ps);
            },
            EngineCommand::Upgrade { upgrade_type } => {
                let mut ps = take_player(&mut self.player_states, p);
                ps.increment_upgrade(*upgrade_type);
                self.player_states.set(p, ps);
            },
        }
    }
}

/// Whether the game moves a unit this frame: it is not under construction
/// or morphing, and its movement step is defined (its squared distances fit
/// in 64 bits, see `movement_defined`).
pub open spec fn moves_now(u: UnitState) -> bool {
    !u.under_construction && u.morph_timer == 0 && movement_defined(u)
}

/// One frame of a live unit's own timers after its movement `m`: the weapon
/// cooldown and the construction timer run down, and construction ends at
/// zero.
pub open spec fn timers_run(m: UnitState, b: UnitState) -> bool {
    let bt = if m.under_construction && m.build_timer > 0 { (m.build_timer - 1) as u16 } else { m.build_timer };
    b == UnitState {
        weapon_cooldown: if m.weapon_cooldown > 0 { (m.weapon_cooldown - 1) as u16 } else { 0 },
        build_timer: bt,
        under_construction: m.under_construction && bt != 0,
        ..m
    }
}

/// Unit `b` is live unit `a` one frame on: moved if the game moves it, then
/// its timers run.
pub open spec fn ticked(a: UnitState, b: UnitState) -> bool {
    exists|m: UnitState| #![trigger timers_run(m, b)]
        (if moves_now(a) { movement_step(a, m) } else { m == a }) && timers_run(m, b)
}

/// Every live unit of `a` ticked into `b`; empty slots and dead units stay.
pub open spec fn all_ticked(a: Seq<Option<UnitState>>, b: Seq<Option<UnitState>>) -> bool {
    &&& b.len() == a.len()
    &&& forall|i: int|
        0 <= i < a.len() ==> if is_live(a[i]) {
            b[i] is Some && ticked(a[i].unwrap(), b[i].unwrap())
        } else {
            #[trigger] b[i] == a[i]
        }
}

/// Unit `b` is unit `a` after its morph timer runs one frame: at zero with a
/// target it becomes that type.
pub open spec fn morph_ticked(v: GameView, a: UnitState, b: UnitState) -> bool {
    if a.alive && a.morph_timer > 0 {
        let d = UnitState { morph_timer: (a.morph_timer - 1) as u16, ..a };
        if d.morph_timer == 0 && d.morph_target is Some {
            morphed(v, d, b, d.morph_target.unwrap())
        } else {
            b == d
        }
    } else {
        b == a
    }
}

/// Every unit's morph timer run one frame.
pub open spec fn all_morphs_ticked(v: GameView, a: Seq<Option<UnitState>>, b: Seq<Option<UnitState>>) -> bool {
    &&& b.len() == a.len()
    &&& forall|i: int|
        0 <= i < a.len() ==> if a[i] is Some {
            b[i] is Some && morph_ticked(v, a[i].unwrap(), b[i].unwrap())
        } else {
            #[trigger] b[i] == a[i]
        }
}

/// Whether the game moves a unit this frame (see `moves_now`).
fn can_move_now(u: &UnitState) -> (r: bool)
    ensures
        r == moves_now(*u),
        r ==> movement_defined(*u),
{
    if u.under_construction || u.morph_timer != 0 {
        return false;
    }
    if u.move_state != MoveState::Moving {
        return true;
    }
    let (tx, ty) = if u.waypoint_index < u.waypoints.len() {
        u.waypoints[u.waypoint_index]
    } else {
        match u.move_target {
            Some((mx, my)) => (mx as i32, my as i32),
            None => {
                return true;
            },
        }
    };
    let target = XY::from_pixels(tx, ty);
    let delta = target - u.exact_position;
    let dx: i128 = delta.x.0 as i128;
    let dy: i128 = delta.y.0 as i128;
    assert(steer_target(*u) == Some((tx, ty)));
    assert(0 <= dx * dx <= 0x8000_0000 * 0x8000_0000) by (nonlinear_arith)
        requires
            -0x8000_0000 <= dx <= 0x8000_0000,
    ;
    assert(0 <= dy * dy <= 0x8000_0000 * 0x8000_0000) by (nonlinear_arith)
        requires
            -0x8000_0000 <= dy <= 0x8000_0000,
    ;
    let d2: i128 = dx * dx + dy * dy;
    let top: i128 = u.top_speed as i128;
    let lim: i128 = if top > 256 { top } else { 256 } * 2;
    assert(lim == crate::unit::arrival_limit(u.top_speed));
    assert(0 <= lim * lim <= 0x1_0000_0000 * 0x1_0000_0000) by (nonlinear_arith)
        requires
            0 <= lim <= 0x1_0000_0000,
    ;
    let lim2: i128 = lim * lim;
    d2 <= i64::MAX as i128 && lim2 <= i64::MAX as i128 && !(d2 > lim2 && u.movement_type == 2 && u.turn_rate
        == 255)
}

impl Game {
    /// Moves every live unit one frame and runs its timers.
    fn tick_units(&mut self)
        requires
            old(self)@.wf(),
        ensures
            final(self)@.wf(),
            final(self)@.same_tables(old(self)@),
            final(self)@.current_frame == old(self)@.current_frame,
            final(self)@.next_unit_index == old(self)@.next_unit_index,
            final(self)@.selection == old(self)@.selection,
            final(self)@.players == old(self)@.players,
            all_ticked(old(self)@.units, final(self)@.units),
    {
        let mut i: usize = 0;
        while i < MAX_UNITS
            invariant
                i <= MAX_UNITS,
                self@.wf(),
                self@.same_tables(old(self)@),
                self@.current_frame == old(self)@.current_frame,
                self@.next_unit_index == old(self)@.next_unit_index,
                self@.selection == old(self)@.selection,
                self@.players == old(self)@.players,
                forall|k: int| i <= k < MAX_UNITS ==> #[trigger] self@.units[k] == old(self)@.units[k],
                forall|k: int|
                    0 <= k < i ==> if is_live(old(self)@.units[k]) {
                        self@.units[k] is Some && ticked(old(self)@.units[k].unwrap(), self@.units[k].unwrap())
                    } else {
                        #[trigger] self@.units[k] == old(self)@.units[k]
                    },
            decreases MAX_UNITS - i,
        {
            let slot = take_slot(&mut self.units, i);
            match slot {
                Some(u) => {
                    let mut u = u;
                    if u.alive {
                        let ghost a = u;
                        if can_move_now(&u) {
                            u.update_movement();
                        }
                        let ghost m = u;
                        if u.weapon_cooldown > 0 {
                            u.weapon_cooldown = u.weapon_cooldown - 1;
                        }
                        if u.under_construction {
                            if u.build_timer > 0 {
                                u.build_timer = u.build_timer - 1;
                            }
                            if u.build_timer == 0 {
                                u.under_construction = false;
                            }
                        }
                        assert(timers_run(m, u));
                        assert(ticked(a, u));
                    }
                    self.units.set(i, Some(u));
                },
                None => {
                    self.units.set(i, None);
                },
            }
            i += 1;
        }
    }

    /// Runs every unit's morph timer one frame, completing morphs at zero.
    fn complete_morphs(&mut self)
        requires
            old(self)@.wf(),
        ensures
            final(self)@.wf(),
            final(self)@.same_tables(old(self)@),
            final(self)@.current_frame == old(self)@.current_frame,
            final(self)@.next_unit_index == old(self)@.next_unit_index,
            final(self)@.selection == old(self)@.selection,
            final(self)@.players == old(self)@.players,
            all_morphs_ticked(old(self)@, old(self)@.units, final(self)@.units),
    {
        let mut i: usize = 0;
        while i < MAX_UNITS
            invariant
                i <= MAX_UNITS,
                self@.wf(),
                self@.same_tables(old(self)@),
                self@.current_frame == old(self)@.current_frame,
                self@.next_unit_index == old(self)@.next_unit_index,
                self@.selection == old(self)@.selection,
                self@.players == old(self)@.players,
                forall|k: int| i <= k < MAX_UNITS ==> #[trigger] self@.units[k] == old(self)@.units[k],
                forall|k: int|
                    0 <= k < i ==> if old(self)@.units[k] is Some {
                        self@.units[k] is Some && morph_ticked(old(self)@, old(self)@.units[k].unwrap(), self@.units[k].unwrap())
                    } else {
                        #[trigger] self@.units[k] == old(self)@.units[k]
                    },
            decreases MAX_UNITS - i,
        {
            let slot = take_slot(&mut self.units, i);
            match slot {
                Some(u) => {
                    let mut u = u;
                    if u.alive && u.morph_timer > 0 {
                        u.morph_timer = u.morph_timer - 1;
                        if u.morph_timer == 0 {
                            match u.morph_target {
                                Some(t) => {
                                    morph_unit(&*self, &mut u, t);
                                },
                                None => {},
                            }
                        }
                    }
                    self.units.set(i, Some(u));
                },
                None => {
                    self.units.set(i, None);
                },
            }
            i += 1;
        }
    }
}

/// A unit to create: type, owner and pixel position.
pub type Spawn = (u16, u8, i32, i32);

/// Frames a queued unit of this type takes: its build time, at least 1.
pub open spec fn train_time(types: Seq<UnitType>, t: u16) -> u16 {
    let bt = type_of(types, t).build_time;
    if bt == 0 { 1 } else { bt }
}

/// Unit `b` is unit `a` after its production runs one frame: an idle queue
/// starts on its first unit, a running one counts down, and at zero the
/// first unit leaves the queue.
pub open spec fn prod_ticked(v: GameView, a: UnitState, b: UnitState) -> bool {
    if a.alive && a.build_queue@.len() > 0 {
        if a.build_timer == 0 {
            b == UnitState { build_timer: train_time(v.unit_types, a.build_queue@[0]), ..a }
        } else if a.build_timer == 1 {
            &&& b == UnitState { build_timer: 0, build_queue: b.build_queue, ..a }
            &&& b.build_queue@ == a.build_queue@.drop_first()
        } else {
            b == UnitState { build_timer: (a.build_timer - 1) as u16, ..a }
        }
    } else {
        b == a
    }
}

/// The unit a slot's production finishes this frame, if any: the first of
/// its queue, for its owner, 32 pixels right and below it.
pub open spec fn finished(slot: Option<UnitState>) -> Option<Spawn> {
    if slot is Some {
        let a = slot.unwrap();
        if a.alive && a.build_queue@.len() > 0 && a.build_timer == 1 {
            Some((a.build_queue@[0], a.owner, wrap_i32(a.pixel_x + 32) as i32, wrap_i32(a.pixel_y + 32) as i32))
        } else {
            None
        }
    } else {
        None
    }
}

/// The units the first `n` slots finish this frame, in slot order.
pub open spec fn finished_units(units: Seq<Option<UnitState>>, n: int) -> Seq<Spawn>
    decreases n,
{
    if n <= 0 {
        Seq::empty()
    } else {
        let prev = finished_units(units, n - 1);
        match finished(units[n - 1]) {
            Some(sp) => prev.push(sp),
            None => prev,
        }
    }
}

/// Creating units in order from slot `start`: the next free slot and the
/// tags of the units created (creation stops when the slots run out).
pub open spec fn spawned_from(start: int, types: Seq<UnitType>, spawns: Seq<Spawn>) -> (int, Seq<u16>)
    decreases spawns.len(),
{
    if spawns.len() == 0 {
        (start, Seq::empty())
    } else {
        let prev = spawned_from(start, types, spawns.drop_last());
        let c = create_spec(types, prev.0, spawns.last().0);
        match c.1 {
            Some(t) => (c.0, prev.1.push(t)),
            None => prev,
        }
    }
}

/// Game `b` is game `a` with the units `spawns` created in order.
pub open spec fn spawned(a: GameView, b: GameView, spawns: Seq<Spawn>) -> bool {
    let (next, tags) = spawned_from(a.next_unit_index, a.unit_types, spawns);
    &&& b.next_unit_index == next
    &&& same_outside(a.units, b.units, a.next_unit_index, b.next_unit_index)
    &&& tags.len() <= spawns.len()
    &&& forall|k: int|
        0 <= k < tags.len() ==> created_at(
            a,
            b,
            #[trigger] tags[k] as int,
            spawns[k].0,
            spawns[k].1,
            spawns[k].2,
            spawns[k].3,
            false,
        )
}

impl Game {
    /// Creates the given units in order.
    fn create_all(&mut self, spawns: &Vec<Spawn>)
        requires
            old(self)@.wf(),
        ensures
            final(self)@.wf(),
            final(self)@.same_tables(old(self)@),
            final(self)@.current_frame == old(self)@.current_frame,
            final(self)@.selection == old(self)@.selection,
            final(self)@.players == old(self)@.players,
            spawned(old(self)@, final(self)@, spawns@),
    {
        let ghost start = self@;
        let mut i: usize = 0;
        while i < spawns.len()
            invariant
                i <= spawns@.len(),
                self@.wf(),
                start.wf(),
                self@.same_tables(start),
                self@.current_frame == start.current_frame,
                self@.selection == start.selection,
                self@.players == start.players,
                self@.next_unit_index == spawned_from(start.next_unit_index, start.unit_types, spawns@.take(i as int)).0,
                same_outside(start.units, self@.units, start.next_unit_index, self@.next_unit_index),
                start.next_unit_index <= self@.next_unit_index,
                ({
                    let tags = spawned_from(start.next_unit_index, start.unit_types, spawns@.take(i as int)).1;
                    let sp = spawns@.take(i as int);
                    &&& tags.len() <= sp.len()
                    &&& self@.next_unit_index < MAX_UNITS ==> tags.len() == sp.len()
                    &&& forall|k: int|
                        0 <= k < tags.len() ==> start.next_unit_index <= #[trigger] tags[k] < self@.next_unit_index
                    &&& forall|k: int|
                        0 <= k < tags.len() ==> created_at(
                            start,
                            self@,
                            #[trigger] tags[k] as int,
                            sp[k].0,
                            sp[k].1,
                            sp[k].2,
                            sp[k].3,
                            false,
                        )
                }),
            decreases spawns@.len() - i,
        {
            proof {
                assert(spawns@.take(i + 1).drop_last() =~= spawns@.take(i as int));
                assert(spawns@.take(i + 1).last() == spawns@[i as int]);
            }
            let (t, owner, x, y) = spawns[i];
            let ghost before = self@;
            let ghost tags0 = spawned_from(start.next_unit_index, start.unit_types, spawns@.take(i as int)).1;
            let ghost sp0 = spawns@.take(i as int);
            let _ = self.create_unit(t, owner, x, y);
            proof {
                let tags1 = spawned_from(start.next_unit_index, start.unit_types, spawns@.take(i + 1)).1;
                let sp1 = spawns@.take(i + 1);
                assert(sp1 =~= sp0.push(spawns@[i as int]));
                if before.next_unit_index < MAX_UNITS {
                    assert(tags1 == tags0.push(before.next_unit_index as u16));
                    assert forall|k: int| 0 <= k < tags1.len() implies created_at(
                        start,
                        self@,
                        #[trigger] tags1[k] as int,
                        sp1[k].0,
                        sp1[k].1,
                        sp1[k].2,
                        sp1[k].3,
                        false,
                    ) by {
                        if k < tags0.len() {
                            assert(tags1[k] == tags0[k]);
                            assert(sp1[k] == sp0[k]);
                            assert(self@.units[tags0[k] as int] == before.units[tags0[k] as int]);
                            assert(created_at(start, before, tags0[k] as int, sp0[k].0, sp0[k].1, sp0[k].2, sp0[k].3, false));
                        } else {
                            assert(k == tags0.len());
                            assert(sp1[k] == spawns@[i as int]);
                            assert(created_at(before, self@, before.next_unit_index, t, owner, x, y, false));
                        }
                    }
                } else {
                    assert(tags1 == tags0);
                    assert forall|k: int| 0 <= k < tags1.len() implies created_at(
                        start,
                        self@,
                        #[trigger] tags1[k] as int,
                        sp1[k].0,
                        sp1[k].1,
                        sp1[k].2,
                        sp1[k].3,
                        false,
                    ) by {
                        assert(sp1[k] == sp0[k]);
                    }
                }
            }
            i += 1;
        }
        assert(spawns@.take(i as int) =~= spawns@);
    }

    /// Runs production one frame and creates the units it finishes.
    fn update_production(&mut self)
        requires
            old(self)@.wf(),
        ensures
            final(self)@.wf(),
            final(self)@.same_tables(old(self)@),
            final(self)@.current_frame == old(self)@.current_frame,
            final(self)@.selection == old(self)@.selection,
            final(self)@.players == old(self)@.players,
            production_done(old(self)@, final(self)@),
    {
        let mut spawns: Vec<Spawn> = Vec::new();
        let mut i: usize = 0;
        while i < MAX_UNITS
            invariant
                i <= MAX_UNITS,
                self@.wf(),
                self@.same_tables(old(self)@),
                self@.current_frame == old(self)@.current_frame,
                self@.next_unit_index == old(self)@.next_unit_index,
                self@.selection == old(self)@.selection,
                self@.players == old(self)@.players,
                spawns@ == finished_units(old(self)@.units, i as int),
                forall|k: int| i <= k < MAX_UNITS ==> #[trigger] self@.units[k] == old(self)@.units[k],
                forall|k: int|
                    0 <= k < i ==> if old(self)@.units[k] is Some {
                        self@.units[k] is Some && prod_ticked(old(self)@, old(self)@.units[k].unwrap(), self@.units[k].unwrap())
                    } else {
                        #[trigger] self@.units[k] == old(self)@.units[k]
                    },
            decreases MAX_UNITS - i,
        {
            let slot = take_slot(&mut self.units, i);
            match slot {
                Some(u) => {
                    let mut u = u;
                    if u.alive && u.build_queue.len() > 0 {
                        if u.build_timer == 0 {
                            let t = u.build_queue[0];
                            let ut = self.type_data(t);
                            u.build_timer = if ut.build_time == 0 {
                                1
                            } else {
                                ut.build_time
                            };
                        } else {
                            u.build_timer = u.build_timer - 1;
                            if u.build_timer == 0 {
                                let trained = u.build_queue.remove(0);
                                proof {
                                    fp8_wrap_facts(u.pixel_x, u.pixel_y);
                                }
                                spawns.push((trained, u.owner, u.pixel_x.wrapping_add(32), u.pixel_y.wrapping_add(32)));
                            }
                        }
                    }
                    self.units.set(i, Some(u));
                },
                None => {
                    self.units.set(i, None);
                },
            }
            i += 1;
        }
        let ghost m = self@;
        self.create_all(&spawns);
    }
}

/// Adding 32 with wrap-around, as `wrap_i32` states it.
proof fn fp8_wrap_facts(x: i32, y: i32)
    ensures
        x.wrapping_add(32) == wrap_i32(x + 32),
        y.wrapping_add(32) == wrap_i32(y + 32),
{
}

/// The owner of the unit in the slot a tag names, if the slot holds one.
pub open spec fn owner_at(units: Seq<Option<UnitState>>, tag: u16) -> Option<u8> {
    let i = id_of_tag(tag).0 as int;
    if i < units.len() && units[i] is Some {
        Some(units[i].unwrap().owner)
    } else {
        None
    }
}

/// Range (pixels) within which a unit type picks its own targets: its sight
/// range in tiles, for a type the data holds.
pub open spec fn acquisition(v: GameView, t: u16) -> int {
    if (t as int) < v.unit_types.len() {
        stats_of(v.stats, t).sight_range * 32
    } else {
        0
    }
}

/// Squared pixel distance between two units.
pub open spec fn dist_sq(a: UnitState, b: UnitState) -> int {
    (a.pixel_x - b.pixel_x) * (a.pixel_x - b.pixel_x) + (a.pixel_y - b.pixel_y) * (a.pixel_y - b.pixel_y)
}

/// Whether unit `u`, with ground and air weapons as given, may pick `o` as
/// its own target: a live enemy of another player below 8 that one of its
/// weapons can hit.
pub open spec fn enemy_for(u: UnitState, o: UnitState, ground: bool, air: bool) -> bool {
    &&& o.alive && o.owner != u.owner && o.owner < 8
    &&& if o.is_air { air } else { ground }
}

/// The nearest target among the first `n` slots within `acq` pixels of `u`:
/// its squared distance and tag; on a tie the first slot wins.
pub open spec fn nearest(units: Seq<Option<UnitState>>, u: UnitState, acq: int, ground: bool, air: bool, n: int) -> (int, Option<u16>)
    decreases n,
{
    if n <= 0 {
        (i64::MAX as int, None)
    } else {
        let prev = nearest(units, u, acq, ground, air, n - 1);
        let s = units[n - 1];
        if s is Some && enemy_for(u, s.unwrap(), ground, air) && dist_sq(u, s.unwrap()) < acq * acq
            && dist_sq(u, s.unwrap()) < prev.0 {
            (dist_sq(u, s.unwrap()), Some(tag_of(s.unwrap().id@.0, s.unwrap().id@.1)))
        } else {
            prev
        }
    }
}

/// The target the unit in slot `i` attacks this frame: its own attack
/// target unless that is one of its owner's units, else the nearest enemy
/// within its acquisition range; none for an empty slot, a dead unit, a
/// neutral one, one under construction or morphing.
pub open spec fn attack_of(v: GameView, i: int) -> Option<u16> {
    let s = v.units[i];
    if !(s is Some) {
        None
    } else {
        let u = s.unwrap();
        if !u.alive || u.owner >= 8 || u.under_construction || u.morph_timer > 0 {
            None
        } else if u.attack_target is Some && owner_at(v.units, u.attack_target.unwrap()) != Some(u.owner) {
            u.attack_target
        } else {
            let ground = u.ground_weapon < 130;
            let air = u.air_weapon < 130;
            let acq = acquisition(v, u.unit_type);
            if (!ground && !air) || acq == 0 {
                None
            } else {
                nearest(v.units, u, acq, ground, air, MAX_UNITS as int).1
            }
        }
    }
}

/// The attacks of the first `n` slots, in slot order.
pub open spec fn attacks_of(v: GameView, n: int) -> Seq<(usize, u16)>
    decreases n,
{
    if n <= 0 {
        Seq::empty()
    } else {
        let prev = attacks_of(v, n - 1);
        match attack_of(v, n - 1) {
            Some(t) => prev.push(((n - 1) as usize, t)),
            None => prev,
        }
    }
}

/// The full statistics of weapon `id`: its table entry and its kind.
pub open spec fn weapon_stats(v: GameView, id: u8) -> WeaponStats {
    let w = v.weapon_types[id as int];
    let k = v.weapon_kinds[id as int];
    WeaponStats {
        damage_amount: w.damage_amount,
        damage_bonus: w.damage_bonus,
        cooldown: w.cooldown,
        damage_factor: w.damage_factor,
        max_range: w.max_range,
        ignores_armor: k.ignores_armor,
        size_modifier: k.size_modifier,
    }
}

/// Whether the game holds weapon `id` (130 is "none") with its kind.
pub open spec fn has_weapon(v: GameView, id: u8) -> bool {
    id != 130 && (id as int) < v.weapon_types.len() && (id as int) < v.weapon_kinds.len()
}

/// A player's level of an upgrade; none for a player id from 8 on.
pub open spec fn level_of(players: Seq<PlayerState>, owner: u8, id: u8) -> u8 {
    if (owner as int) < players.len() {
        level_in(players[owner as int].upgrade_levels@, id)
    } else {
        0
    }
}

/// The armour upgrade of a unit type the data holds.
pub open spec fn armor_upgrade_of(v: GameView, t: u16) -> u8 {
    if (t as int) < v.unit_types.len() {
        stats_of(v.stats, t).armor_upgrade
    } else {
        0
    }
}

/// The damage (fp8) a hit of the attacker's weapon `wid` does to `t`, and
/// whether it is defined: the ratio's denominator is not zero and the
/// damage fits in 32 bits.
pub open spec fn hit_of(v: GameView, a: UnitState, t: UnitState, wid: u8) -> Option<int> {
    let ws = weapon_stats(v, wid);
    let level = level_of(v.players, a.owner, wid);
    let (num, den) = ws.size_modifier@[size_index(t.unit_size)];
    if den > 0 && base_damage(ws, level) * num <= i32::MAX {
        let d = hit_damage_spec(ws, level, t.unit_size, t.armor, level_of(v.players, t.owner, armor_upgrade_of(v, t.unit_type)));
        if d * 256 <= i32::MAX && t.hp - d * 256 >= i32::MIN {
            Some(d * 256)
        } else {
            None
        }
    } else {
        None
    }
}

/// Unit `b` is `a` chasing the pixel (tx, ty).
pub open spec fn chasing(a: UnitState, b: UnitState, tx: i32, ty: i32) -> bool {
    &&& b == UnitState {
        move_target: Some((tx as u16, ty as u16)),
        move_state: MoveState::Moving,
        waypoints: b.waypoints,
        waypoint_index: 0,
        ..a
    }
    &&& b.waypoints@ == seq![(tx, ty)]
}

/// Slots `w` are slots `u` after the attack of slot `ai` on tag `tg`: with
/// no live target the attacker forgets it; in range and ready the target
/// takes the hit and the weapon cools down; out of range the attacker
/// chases the target. A missing weapon, or a hit that is not defined, does
/// nothing.
pub open spec fn resolved_one(v: GameView, u: Seq<Option<UnitState>>, w: Seq<Option<UnitState>>, ai: int, tg: u16) -> bool {
    let ti = id_of_tag(tg).0 as int;
    let a = u[ai].unwrap();
    &&& w.len() == u.len()
    &&& if !(ti < u.len() && is_live(u[ti])) {
        w == u.update(ai, Some(UnitState { attack_target: None, ..a }))
    } else {
        let t = u[ti].unwrap();
        let wid = if t.is_air { a.air_weapon } else { a.ground_weapon };
        if !has_weapon(v, wid) {
            w == u
        } else {
            let ws = weapon_stats(v, wid);
            let d2 = dist_sq(a, t);
            let r2 = ws.max_range * ws.max_range;
            if d2 <= r2 && a.weapon_cooldown == 0 {
                match hit_of(v, a, t, wid) {
                    Some(dmg) => {
                        let u1 = u.update(ti, Some(after_hit(t, dmg)));
                        w == u1.update(ai, Some(UnitState { weapon_cooldown: ws.cooldown as u16, ..u1[ai].unwrap() }))
                    },
                    None => w == u,
                }
            } else if d2 > r2 && (a.move_state != MoveState::Moving || a.move_target != Some(
                (t.pixel_x as u16, t.pixel_y as u16),
            )) {
                &&& forall|k: int| 0 <= k < u.len() && k != ai ==> #[trigger] w[k] == u[k]
                &&& w[ai] is Some
                &&& chasing(a, w[ai].unwrap(), t.pixel_x, t.pixel_y)
            } else {
                w == u
            }
        }
    }
}

/// The slot states `states` run from attack to attack: each is the one
/// before after the attack between them.
pub open spec fn resolved_chain(v: GameView, states: Seq<Seq<Option<UnitState>>>, atk: Seq<(usize, u16)>) -> bool {
    &&& states.len() == atk.len() + 1
    &&& forall|k: int|
        0 <= k < atk.len() ==> resolved_one(v, states[k], #[trigger] states[k + 1], atk[k].0 as int, atk[k].1)
}

/// Slots `w` are slots `u` after the attacks `atk`, in order.
pub open spec fn resolved(v: GameView, u: Seq<Option<UnitState>>, w: Seq<Option<UnitState>>, atk: Seq<(usize, u16)>) -> bool {
    exists|states: Seq<Seq<Option<UnitState>>>|
        #![trigger resolved_chain(v, states, atk)]
        resolved_chain(v, states, atk) && states[0] == u && states.last() == w
}

/// The attacks of the first `n` slots come from slots below `n` that hold
/// a unit.
proof fn lemma_attacks_from_units(v: GameView, n: int)
    requires
        0 <= n <= v.units.len(),
        n <= MAX_UNITS,
    ensures
        forall|k: int|
            0 <= k < attacks_of(v, n).len() ==> (#[trigger] attacks_of(v, n)[k]).0 < n && v.units[
                attacks_of(v, n)[k].0 as int
            ] is Some,
    decreases n,
{
    if n > 0 {
        lemma_attacks_from_units(v, n - 1);
        let prev = attacks_of(v, n - 1);
        assert forall|k: int| 0 <= k < attacks_of(v, n).len() implies (#[trigger] attacks_of(v, n)[k]).0 < n
            && v.units[attacks_of(v, n)[k].0 as int] is Some by {
            if k < prev.len() {
                assert(attacks_of(v, n)[k] == prev[k]);
            } else {
                assert(attack_of(v, n - 1) is Some);
                assert(attacks_of(v, n)[k].0 == (n - 1) as usize);
                assert(v.units[n - 1] is Some);
            }
        }
    }
}

/// An attack reads only the tables and the players of the game.
proof fn lemma_resolved_one_tables(v1: GameView, v2: GameView, u: Seq<Option<UnitState>>, w: Seq<Option<UnitState>>, ai: int, tg: u16)
    requires
        v1.same_tables(v2),
        v1.players == v2.players,
    ensures
        resolved_one(v1, u, w, ai, tg) == resolved_one(v2, u, w, ai, tg),
{
}

impl Game {
    /// The nearest enemy `u` may pick within `acq` pixels, as `nearest` says.
    fn nearest_enemy(&self, u: &UnitState, acq: i64, ground: bool, air: bool) -> (r: Option<u16>)
        requires
            self@.wf(),
            0 <= acq <= 255 * 32,
        ensures
            r == nearest(self@.units, *u, acq as int, ground, air, MAX_UNITS as int).1,
    {
        let mut best: i128 = i64::MAX as i128;
        let mut best_tag: Option<u16> = None;
        let mut j: usize = 0;
        while j < MAX_UNITS
            invariant
                self@.wf(),
                0 <= acq <= 255 * 32,
                j <= MAX_UNITS,
                (best as int, best_tag) == nearest(self@.units, *u, acq as int, ground, air, j as int),
            decreases MAX_UNITS - j,
        {
            match &self.units[j] {
                Some(o) => {
                    let enemy = o.alive && o.owner != u.owner && o.owner < 8 && if o.is_air {
                        air
                    } else {
                        ground
                    };
                    if enemy {
                        let dx: i128 = u.pixel_x as i128 - o.pixel_x as i128;
                        let dy: i128 = u.pixel_y as i128 - o.pixel_y as i128;
                        assert(0 <= dx * dx <= 0x1_0000_0000 * 0x1_0000_0000) by (nonlinear_arith)
                            requires
                                -0x1_0000_0000 <= dx <= 0x1_0000_0000,
                        ;
                        assert(0 <= dy * dy <= 0x1_0000_0000 * 0x1_0000_0000) by (nonlinear_arith)
                            requires
                                -0x1_0000_0000 <= dy <= 0x1_0000_0000,
                        ;
                        let d: i128 = dx * dx + dy * dy;
                        assert(0 <= acq * acq <= 8160 * 8160) by (nonlinear_arith)
                            requires
                                0 <= acq <= 8160,
                        ;
                        let a: i128 = acq as i128 * acq as i128;
                        if d < a && d < best {
                            best = d;
                            best_tag = Some(o.id.to_tag());
                        }
                    }
                },
                None => {},
            }
            j += 1;
        }
        best_tag
    }

    /// The target the unit in slot `i` attacks this frame (`attack_of`).
    fn attack_target_of(&self, i: usize) -> (r: Option<u16>)
        requires
            self@.wf(),
            i < MAX_UNITS,
        ensures
            r == attack_of(self@, i as int),
    {
        match &self.units[i] {
            None => None,
            Some(u) => {
                if !u.alive || u.owner >= 8 || u.under_construction || u.morph_timer > 0 {
                    return None;
                }
                match u.attack_target {
                    Some(t) => {
                        let ti = (t & 0x07FF) as usize;
                        assert(t & 0x07FF == id_of_tag(t).0);
                        let own = if ti < self.units.len() {
                            match &self.units[ti] {
                                Some(x) => x.owner == u.owner,
                                None => false,
                            }
                        } else {
                            false
                        };
                        if !own {
                            return Some(t);
                        }
                    },
                    None => {},
                }
                let ground = u.ground_weapon < 130;
                let air = u.air_weapon < 130;
                let acq: i64 = if (u.unit_type as usize) < self.data.unit_types.len() {
                    self.stats_for(u.unit_type).sight_range as i64 * 32
                } else {
                    0
                };
                if (!ground && !air) || acq == 0 {
                    return None;
                }
                self.nearest_enemy(u, acq, ground, air)
            },
        }
    }

    /// The attacks of every slot, in slot order.
    fn collect_attacks(&self) -> (r: Vec<(usize, u16)>)
        requires
            self@.wf(),
        ensures
            r@ == attacks_of(self@, MAX_UNITS as int),
    {
        let mut r: Vec<(usize, u16)> = Vec::new();
        let mut i: usize = 0;
        while i < MAX_UNITS
            invariant
                self@.wf(),
                i <= MAX_UNITS,
                r@ == attacks_of(self@, i as int),
            decreases MAX_UNITS - i,
        {
            match self.attack_target_of(i) {
                Some(t) => {
                    r.push((i, t));
                },
                None => {},
            }
            i += 1;
        }
        r
    }
}

impl Game {
    /// A player's level of an upgrade; none for a player id from 8 on.
    fn level(&self, owner: u8, id: u8) -> (r: u8)
        requires
            self@.wf(),
        ensures
            r == level_of(self@.players, owner, id),
    {
        if (owner as usize) < self.player_states.len() {
            self.player_states[owner as usize].upgrade_level(id)
        } else {
            0
        }
    }

    /// The damage (fp8) of a hit by slot `ai`'s weapon `wid` on slot `ti`,
    /// where it is defined (`hit_of`).
    fn damage_for(&self, ai: usize, ti: usize, wid: u8, ws: &WeaponStats) -> (r: Option<i32>)
        requires
            self@.wf(),
            ai < MAX_UNITS,
            ti < MAX_UNITS,
            self@.units[ai as int] is Some,
            self@.units[ti as int] is Some,
            has_weapon(self@, wid),
            *ws == weapon_stats(self@, wid),
        ensures
            r is Some <==> hit_of(self@, self@.units[ai as int].unwrap(), self@.units[ti as int].unwrap(), wid) is Some,
            r is Some ==> r.unwrap() == hit_of(self@, self@.units[ai as int].unwrap(), self@.units[ti as int].unwrap(), wid).unwrap(),
    {
        let (a_owner, t_size, t_armor, t_owner, t_type, t_hp) = match (&self.units[ai], &self.units[ti]) {
            (Some(a), Some(t)) => (a.owner, t.unit_size, t.armor, t.owner, t.unit_type, t.hp),
            _ => (0, UnitSize::Independent, 0, 0, 0, 0),
        };
        let level = self.level(a_owner, wid);
        let idx: usize = match t_size {
            UnitSize::Independent => 0,
            UnitSize::Small => 1,
            UnitSize::Medium => 2,
            UnitSize::Large => 3,
        };
        let (num, den) = ws.size_modifier[idx];
        let factor: i64 = if ws.damage_factor == 0 { 1 } else { ws.damage_factor as i64 };
        let amount: i64 = ws.damage_amount as i64;
        let bonus: i64 = ws.damage_bonus as i64;
        let lv: i64 = level as i64;
        assert(0 <= amount * factor <= 65535 * 255) by (nonlinear_arith)
            requires
                0 <= amount <= 65535,
                1 <= factor <= 255,
        ;
        assert(0 <= bonus * lv <= 65535 * 255) by (nonlinear_arith)
            requires
                0 <= bonus <= 65535,
                0 <= lv <= 255,
        ;
        let base: i64 = amount * factor + bonus * lv;
        assert(base == base_damage(*ws, level));
        assert(0 <= base * (num as i64) <= 2 * 65535 * 255 * 255) by (nonlinear_arith)
            requires
                0 <= base <= 2 * 65535 * 255,
                0 <= num <= 255,
        ;
        if den == 0 || base * (num as i64) > i32::MAX as i64 {
            return None;
        }
        let armor_upgrade: u8 = if (t_type as usize) < self.data.unit_types.len() {
            self.stats_for(t_type).armor_upgrade
        } else {
            0
        };
        let armor_level = self.level(t_owner, armor_upgrade);
        let d = hit_damage(ws, level, t_size, t_armor, armor_level);
        if d as i64 * 256 > i32::MAX as i64 || t_hp as i64 - d as i64 * 256 < i32::MIN as i64 {
            return None;
        }
        Some(d * 256)
    }

    /// Resolves the attack of slot `ai` on the unit with tag `tg`.
    #[verifier::rlimit(40)]
    fn resolve_attack(&mut self, ai: usize, tg: u16)
        requires
            old(self)@.wf(),
            ai < MAX_UNITS,
            old(self)@.units[ai as int] is Some,
        ensures
            final(self)@.wf(),
            final(self)@.same_tables(old(self)@),
            final(self)@.current_frame == old(self)@.current_frame,
            final(self)@.next_unit_index == old(self)@.next_unit_index,
            final(self)@.selection == old(self)@.selection,
            final(self)@.players == old(self)@.players,
            resolved_one(old(self)@, old(self)@.units, final(self)@.units, ai as int, tg),
    {
        let ti = (tg & 0x07FF) as usize;
        assert(tg & 0x07FF == id_of_tag(tg).0);
        let live = ti < self.units.len() && match &self.units[ti] {
            Some(t) => t.alive,
            None => false,
        };
        if !live {
            let mut a = take_slot(&mut self.units, ai).unwrap();
            a.attack_target = None;
            self.units.set(ai, Some(a));
            assert(self@.units =~= old(self)@.units.update(
                ai as int,
                Some(UnitState { attack_target: None, ..old(self)@.units[ai as int].unwrap() }),
            ));
            return;
        }
        let ghost ga = old(self)@.units[ai as int].unwrap();
        let ghost gt = old(self)@.units[ti as int].unwrap();
        let (tx, ty, t_air, t_size, t_armor, t_owner, t_type, t_hp) = match &self.units[ti] {
            Some(t) => (t.pixel_x, t.pixel_y, t.is_air, t.unit_size, t.armor, t.owner, t.unit_type, t.hp),
            None => (0, 0, false, UnitSize::Independent, 0, 0, 0, 0),
        };
        let (ax, ay, a_owner, a_cd, a_moving, a_mt, wid) = match &self.units[ai] {
            Some(a) => (
                a.pixel_x,
                a.pixel_y,
                a.owner,
                a.weapon_cooldown,
                a.move_state == MoveState::Moving,
                a.move_target,
                if t_air {
                    a.air_weapon
                } else {
                    a.ground_weapon
                },
            ),
            None => (0, 0, 0, 0, false, None, 0),
        };
        if !(wid != 130 && (wid as usize) < self.data.weapon_types.len() && (wid as usize)
            < self.weapon_kinds.len()) {
            return;
        }
        let wt = self.data.weapon_types[wid as usize];
        let k = self.weapon_kinds[wid as usize];
        let ws = WeaponStats {
            damage_amount: wt.damage_amount,
            damage_bonus: wt.damage_bonus,
            cooldown: wt.cooldown,
            damage_factor: wt.damage_factor,
            max_range: wt.max_range,
            ignores_armor: k.ignores_armor,
            size_modifier: k.size_modifier,
        };
        assert(ws == weapon_stats(old(self)@, wid));
        let dx: i128 = ax as i128 - tx as i128;
        let dy: i128 = ay as i128 - ty as i128;
        assert(0 <= dx * dx <= 0x1_0000_0000 * 0x1_0000_0000) by (nonlinear_arith)
            requires
                -0x1_0000_0000 <= dx <= 0x1_0000_0000,
        ;
        assert(0 <= dy * dy <= 0x1_0000_0000 * 0x1_0000_0000) by (nonlinear_arith)
            requires
                -0x1_0000_0000 <= dy <= 0x1_0000_0000,
        ;
        let d2: i128 = dx * dx + dy * dy;
        let range: i128 = ws.max_range as i128;
        assert(0 <= range * range <= 0x1_0000_0000 * 0x1_0000_0000) by (nonlinear_arith)
            requires
                0 <= range <= 0x1_0000_0000,
        ;
        let r2: i128 = range * range;
        assert(d2 == dist_sq(ga, gt));
        assert(r2 == ws.max_range * ws.max_range);
        if d2 <= r2 && a_cd == 0 {
            let dmg_opt = self.damage_for(ai, ti, wid, &ws);
            let dmg: i32 = match dmg_opt {
                Some(x) => x,
                None => {
                    return;
                },
            };
            let mut t = take_slot(&mut self.units, ti).unwrap();
            apply_hit(&mut t, dmg);
            self.units.set(ti, Some(t));
            let ghost u1 = self@.units;
            let mut a = take_slot(&mut self.units, ai).unwrap();
            a.weapon_cooldown = ws.cooldown as u16;
            self.units.set(ai, Some(a));
            assert(self@.units =~= u1.update(ai as int, Some(UnitState { weapon_cooldown: ws.cooldown as u16, ..u1[ai as int].unwrap() })));
            assert(u1 =~= old(self)@.units.update(ti as int, Some(after_hit(gt, dmg as int))));
            assert(hit_of(old(self)@, ga, gt, wid) == Some(dmg as int));
            assert(has_weapon(old(self)@, wid));
            assert(wid == (if gt.is_air { ga.air_weapon } else { ga.ground_weapon }));
        } else if d2 > r2 {
            let same_target = match a_mt {
                Some((mx, my)) => mx == tx as u16 && my == ty as u16,
                None => false,
            };
            assert(same_target == (ga.move_target == Some((gt.pixel_x as u16, gt.pixel_y as u16))));
            if !a_moving || !same_target {
                let mut a = take_slot(&mut self.units, ai).unwrap();
                a.move_target = Some((tx as u16, ty as u16));
                a.move_state = MoveState::Moving;
                let mut w: Vec<(i32, i32)> = Vec::new();
                w.push((tx, ty));
                a.waypoints = w;
                a.waypoint_index = 0;
                self.units.set(ai, Some(a));
                assert(chasing(ga, self@.units[ai as int].unwrap(), gt.pixel_x, gt.pixel_y));
                assert(forall|k: int| 0 <= k < MAX_UNITS && k != ai ==> #[trigger] self@.units[k] == old(self)@.units[k]);
            }
        }
    }

    /// Resolves this frame's attacks, gathered before any is resolved.
    fn update_combat(&mut self)
        requires
            old(self)@.wf(),
        ensures
            final(self)@.wf(),
            final(self)@.same_tables(old(self)@),
            final(self)@.current_frame == old(self)@.current_frame,
            final(self)@.next_unit_index == old(self)@.next_unit_index,
            final(self)@.selection == old(self)@.selection,
            final(self)@.players == old(self)@.players,
            resolved(old(self)@, old(self)@.units, final(self)@.units, attacks_of(old(self)@, MAX_UNITS as int)),
    {
        let attacks = self.collect_attacks();
        let ghost v0 = self@;
        proof {
            lemma_attacks_from_units(v0, MAX_UNITS as int);
        }
        let mut j: usize = 0;
        let ghost mut states: Seq<Seq<Option<UnitState>>> = seq![self@.units];
        while j < attacks.len()
            invariant
                j <= attacks@.len(),
                attacks@ == attacks_of(v0, MAX_UNITS as int),
                v0 == old(self)@,
                v0.wf(),
                self@.wf(),
                self@.same_tables(v0),
                self@.current_frame == v0.current_frame,
                self@.next_unit_index == v0.next_unit_index,
                self@.selection == v0.selection,
                self@.players == v0.players,
                forall|k: int| 0 <= k < MAX_UNITS && v0.units[k] is Some ==> #[trigger] self@.units[k] is Some,
                forall|k: int|
                    0 <= k < attacks@.len() ==> (#[trigger] attacks@[k]).0 < MAX_UNITS && v0.units[
                        attacks@[k].0 as int
                    ] is Some,
                states.len() == j + 1,
                resolved_chain(v0, states, attacks@.take(j as int)),
                states[0] == v0.units,
                states.last() == self@.units,
            decreases attacks@.len() - j,
        {
            let (ai, tg) = attacks[j];
            let ghost m = self@;
            assert(attacks@[j as int].0 < MAX_UNITS);
            self.resolve_attack(ai, tg);
            proof {
                lemma_resolved_one_tables(m, v0, m.units, self@.units, ai as int, tg);
                let t0 = attacks@.take(j as int);
                let t1 = attacks@.take(j + 1);
                let s1 = states.push(self@.units);
                assert forall|k: int| 0 <= k < t1.len() implies resolved_one(v0, s1[k], #[trigger] s1[k + 1], t1[k].0 as int, t1[k].1) by {
                    if k < j {
                        assert(t1[k] == t0[k]);
                        assert(s1[k] == states[k]);
                        assert(s1[k + 1] == states[k + 1]);
                    } else {
                        assert(t1[k] == (ai, tg));
                        assert(s1[k] == m.units);
                    }
                }
                states = s1;
                assert forall|k: int| 0 <= k < MAX_UNITS && v0.units[k] is Some implies #[trigger] self@.units[k] is Some by {
                    assert(m.units[k] is Some);
                }
            }
            j += 1;
        }
        assert(attacks@.take(j as int) =~= attacks@);
        assert(resolved_chain(v0, states, attacks@));
    }
}

/// Game `b` is game `a` after production runs one frame: every queue runs
/// (`prod_ticked`) and the units finished are created in slot order.
pub open spec fn production_done(a: GameView, b: GameView) -> bool {
    exists|m: GameView|
        {
            &&& m.units.len() == a.units.len()
            &&& m.same_tables(a) && m.wf()
            &&& m.next_unit_index == a.next_unit_index
            &&& m.current_frame == a.current_frame
            &&& m.selection == a.selection && m.players == a.players
            &&& forall|i: int|
                0 <= i < MAX_UNITS ==> if a.units[i] is Some {
                    m.units[i] is Some && prod_ticked(a, a.units[i].unwrap(), m.units[i].unwrap())
                } else {
                    #[trigger] m.units[i] == a.units[i]
                }
            &&& spawned(m, b, finished_units(a.units, MAX_UNITS as int))
            &&& b.same_tables(a) && b.wf()
            &&& b.current_frame == a.current_frame
            &&& b.selection == a.selection && b.players == a.players
        }
}

/// Game `b` is game `a` with other slots only.
pub open spec fn units_only(a: GameView, b: GameView) -> bool {
    &&& b.same_tables(a) && b.wf()
    &&& b.current_frame == a.current_frame && b.next_unit_index == a.next_unit_index
    &&& b.selection == a.selection && b.players == a.players
}

/// The sight range (tiles) a unit type reveals: its own for a type the data
/// holds, else 7.
pub open spec fn sight_of(v: GameView, t: u16) -> u8 {
    if (t as int) < v.unit_types.len() {
        stats_of(v.stats, t).sight_range
    } else {
        7
    }
}

/// The reveals of the first `n` slots, in slot order: one for each live
/// unit of a player below 8, around its pixel, with its sight.
pub open spec fn reveal_calls(v: GameView, n: int) -> Seq<VisionCall>
    decreases n,
{
    if n <= 0 {
        Seq::empty()
    } else {
        let prev = reveal_calls(v, n - 1);
        let s = v.units[n - 1];
        if s is Some && s.unwrap().alive && s.unwrap().owner < 8 {
            let u = s.unwrap();
            prev.push(VisionCall::Reveal { px: u.pixel_x, py: u.pixel_y, sight: sight_of(v, u.unit_type), owner: u.owner })
        } else {
            prev
        }
    }
}

/// Vision `after` is vision `before` cleared, then revealed by `calls` in
/// order.
pub open spec fn vision_updated(before: VisionModel, after: VisionModel, calls: Seq<VisionCall>) -> bool {
    exists|ms: Seq<VisionModel>|
        #![trigger ms.len(), cleared(before, ms[0])]
        {
            &&& ms.len() == calls.len() + 1
            &&& cleared(before, ms[0])
            &&& forall|k: int| 0 <= k < calls.len() ==> follows(ms[k], #[trigger] ms[k + 1], calls[k])
            &&& ms.last() == after
        }
}

/// Game `b` is game `a` with its vision brought up to date: cleared, then
/// each live unit of a player below 8 reveals around itself, in slot order.
pub open spec fn vision_phase(a: GameView, b: GameView) -> bool {
    &&& b == (GameView { vision: b.vision, ..a })
    &&& b.wf()
    &&& vision_updated(a.vision, b.vision, reveal_calls(a, MAX_UNITS as int))
}

/// Whether a unit mines: a live worker of a player below 8, at rest and
/// attacking nothing.
pub open spec fn mines(u: UnitState) -> bool {
    u.alive && u.is_worker && u.owner < 8 && u.move_state == MoveState::AtRest && u.attack_target is None
}

/// Trip time of a mining worker, in mining rounds.
pub const MINING_TRIP: u16 = 75;

/// Unit `b` is unit `a` after a mining round: an idle miner starts a trip;
/// a running trip counts down, and at zero delivers and starts the next.
pub open spec fn mine_ticked(a: UnitState, b: UnitState) -> bool {
    if mines(a) {
        if a.mining_timer > 1 {
            b == UnitState { mining_timer: (a.mining_timer - 1) as u16, ..a }
        } else {
            b == UnitState { mining_timer: MINING_TRIP, ..a }
        }
    } else {
        b == a
    }
}

/// Whether the unit in slot `s` delivers this mining round for player `p`,
/// gas (from a gas building it mines) or minerals.
pub open spec fn delivers(s: Option<UnitState>, p: int, gas: bool) -> bool {
    &&& s is Some && mines(s.unwrap()) && s.unwrap().mining_timer == 1
    &&& s.unwrap().owner == p
    &&& (s.unwrap().mining_target is Some) == gas
}

/// How many of the first `n` slots deliver for player `p`.
pub open spec fn deliveries(units: Seq<Option<UnitState>>, p: int, gas: bool, n: int) -> int
    decreases n,
{
    if n <= 0 {
        0
    } else {
        deliveries(units, p, gas, n - 1) + if delivers(units[n - 1], p, gas) { 1int } else { 0int }
    }
}

/// Game `b` is game `a` after a mining round: every unit's mining runs, and
/// each delivery adds 8 minerals or gas to its owner (wrapping in 32 bits).
pub open spec fn mining_phase(a: GameView, b: GameView) -> bool {
    &&& b.same_tables(a) && b.wf()
    &&& b.current_frame == a.current_frame && b.next_unit_index == a.next_unit_index
    &&& b.selection == a.selection
    &&& b.units.len() == a.units.len()
    &&& forall|i: int|
        0 <= i < MAX_UNITS ==> if a.units[i] is Some {
            b.units[i] is Some && mine_ticked(a.units[i].unwrap(), b.units[i].unwrap())
        } else {
            #[trigger] b.units[i] == a.units[i]
        }
    &&& b.players.len() == a.players.len()
    &&& forall|p: int|
        0 <= p < MAX_PLAYERS ==> #[trigger] b.players[p] == (PlayerState {
            minerals: wrap_i32(a.players[p].minerals + 8 * deliveries(a.units, p, false, MAX_UNITS as int)) as i32,
            gas: wrap_i32(a.players[p].gas + 8 * deliveries(a.units, p, true, MAX_UNITS as int)) as i32,
            ..a.players[p]
        })
}

/// Unit `b` is unit `a` after a frame of energy: a live unit below its
/// maximum gains 8 (fp8), up to the maximum.
pub open spec fn energy_ticked(a: UnitState, b: UnitState) -> bool {
    if a.alive && a.max_energy > 0 && a.energy < a.max_energy {
        b == UnitState { energy: if a.energy + 8 < a.max_energy { (a.energy + 8) as i32 } else { a.max_energy }, ..a }
    } else {
        b == a
    }
}

/// Game `b` is game `a` after a frame of energy.
pub open spec fn energy_phase(a: GameView, b: GameView) -> bool {
    &&& units_only(a, b)
    &&& b.units.len() == a.units.len()
    &&& forall|i: int|
        0 <= i < MAX_UNITS ==> if a.units[i] is Some {
            b.units[i] is Some && energy_ticked(a.units[i].unwrap(), b.units[i].unwrap())
        } else {
            #[trigger] b.units[i] == a.units[i]
        }
}

/// The end of a frame after production: `g5` after the vision update of
/// every fourth frame, `g6` after the mining round of every eighth, `g7`
/// after energy, and `b` after the unit separation of every fourth frame.
pub open spec fn step_tail(g4: GameView, g5: GameView, g6: GameView, g7: GameView, b: GameView) -> bool {
    &&& if g4.current_frame % 4 == 0 {
        vision_phase(g4, g5)
    } else {
        g5 == g4
    }
    &&& if g5.current_frame % 8 == 0 {
        mining_phase(g5, g6)
    } else {
        g6 == g5
    }
    &&& energy_phase(g6, g7)
    &&& if g7.current_frame % 4 == 0 {
        units_only(g7, b) && b.units == separated(g7.units, MAX_UNITS as int)
    } else {
        b == g7
    }
}

/// The parts of one frame: `g1` after movement and timers, `g2` after
/// morphs, `g3` after combat, `g4` after production, then `step_tail`.
pub open spec fn step_parts(
    a: GameView,
    g1: GameView,
    g2: GameView,
    g3: GameView,
    g4: GameView,
    g5: GameView,
    g6: GameView,
    g7: GameView,
    b: GameView,
) -> bool {
    &&& g1.same_tables(a) && g1.wf() && g1.current_frame == a.current_frame + 1
    &&& g1.next_unit_index == a.next_unit_index && g1.selection == a.selection && g1.players == a.players
    &&& all_ticked(a.units, g1.units)
    &&& units_only(g1, g2) && all_morphs_ticked(g1, g1.units, g2.units)
    &&& units_only(g2, g3) && resolved(g2, g2.units, g3.units, attacks_of(g2, MAX_UNITS as int))
    &&& production_done(g3, g4)
    &&& step_tail(g4, g5, g6, g7, b)
}

/// Game `b` is game `a` one frame on: the frame counter advances, every
/// live unit moves and its timers run, morph timers run, the frame's attacks
/// are resolved, production runs, on every fourth frame the vision is
/// brought up to date, on every eighth workers mine, energy regenerates, and
/// on every fourth frame overlapping ground units are pushed apart.
pub open spec fn step_effect(a: GameView, b: GameView) -> bool {
    exists|g1: GameView, g2: GameView, g3: GameView, g4: GameView, g5: GameView, g6: GameView, g7: GameView|
        #[trigger] step_parts(a, g1, g2, g3, g4, g5, g6, g7, b)
}

/// Game `b` is game `a` with the same tables, map and vision state.
pub open spec fn same_data(a: GameView, b: GameView) -> bool {
    &&& b.unit_types == a.unit_types
    &&& b.flingy_types == a.flingy_types
    &&& b.weapon_types == a.weapon_types
    &&& b.stats == a.stats
    &&& b.weapon_kinds == a.weapon_kinds
    &&& b.map == a.map
}

/// The games `gs` run frame by frame.
pub open spec fn stepped(gs: Seq<GameView>) -> bool {
    forall|k: int| 0 <= k < gs.len() - 1 ==> step_effect(gs[k], #[trigger] gs[k + 1])
}

impl Game {
    /// Advances the simulation one frame: movement and timers, morphs,
    /// combat, production, the vision update (every fourth frame), mining
    /// (every eighth), energy, and unit separation (every fourth frame).
    pub fn step(&mut self)
        requires
            old(self)@.wf(),
            old(self)@.current_frame < u32::MAX,
        ensures
            final(self)@.wf(),
            same_data(old(self)@, final(self)@),
            final(self)@.current_frame == old(self)@.current_frame + 1,
            final(self)@.selection == old(self)@.selection,
            step_effect(old(self)@, final(self)@),
    {
        self.current_frame = self.current_frame + 1;
        let ghost g0 = self@;
        self.tick_units();
        let ghost g1 = self@;
        self.complete_morphs();
        let ghost g2 = self@;
        self.update_combat();
        let ghost g3 = self@;
        self.update_production();
        let ghost g4 = self@;
        if self.current_frame % 4 == 0 {
            self.update_vision();
        }
        let ghost g5 = self@;
        if self.current_frame % 8 == 0 {
            self.update_mining();
        }
        let ghost g6 = self@;
        self.update_energy();
        let ghost g7 = self@;
        if self.current_frame % 4 == 0 {
            self.update_collision();
        }
        proof {
            assert(g0.units == old(self)@.units);
            assert(g1.same_tables(old(self)@) && g1.wf() && g1.current_frame == old(self)@.current_frame + 1);
            assert(g1.next_unit_index == old(self)@.next_unit_index && g1.selection == old(self)@.selection
                && g1.players == old(self)@.players);
            assert(all_ticked(old(self)@.units, g1.units));
            assert(units_only(g1, g2) && all_morphs_ticked(g1, g1.units, g2.units));
            assert(units_only(g2, g3) && resolved(g2, g2.units, g3.units, attacks_of(g2, MAX_UNITS as int)));
            assert(production_done(g3, g4));
            assert(step_tail(g4, g5, g6, g7, self@));
            assert(step_parts(old(self)@, g1, g2, g3, g4, g5, g6, g7, self@));
        }
    }

    /// Steps until the frame counter reaches `target_frame`.
    pub fn step_to(&mut self, target_frame: u32)
        requires
            old(self)@.wf(),
        ensures
            final(self)@.wf(),
            same_data(old(self)@, final(self)@),
            final(self)@.current_frame == if old(self)@.current_frame < target_frame {
                target_frame as int
            } else {
                old(self)@.current_frame
            },
            old(self)@.current_frame >= target_frame ==> final(self)@ == old(self)@,
            exists|gs: Seq<GameView>|
                #![trigger stepped(gs)]
                {
                    &&& stepped(gs)
                    &&& gs.len() == 1 + if old(self)@.current_frame < target_frame {
                        target_frame - old(self)@.current_frame
                    } else {
                        0
                    }
                    &&& gs[0] == old(self)@
                    &&& gs.last() == final(self)@
                },
    {
        let ghost mut gs: Seq<GameView> = seq![self@];
        while self.current_frame < target_frame
            invariant
                self@.wf(),
                same_data(old(self)@, self@),
                old(self)@.current_frame <= self@.current_frame,
                old(self)@.current_frame < target_frame ==> self@.current_frame <= target_frame,
                old(self)@.current_frame >= target_frame ==> self@.current_frame == old(self)@.current_frame,
                gs.len() == 1 + self@.current_frame - old(self)@.current_frame,
                gs.len() == 1 ==> self@ == old(self)@,
                gs[0] == old(self)@,
                gs.last() == self@,
                stepped(gs),
            decreases target_frame - self@.current_frame,
        {
            let ghost before = self@;
            self.step();
            proof {
                let gs1 = gs.push(self@);
                assert forall|k: int| 0 <= k < gs1.len() - 1 implies step_effect(gs1[k], #[trigger] gs1[k + 1]) by {
                    if k < gs.len() - 1 {
                        assert(gs1[k] == gs[k]);
                        assert(gs1[k + 1] == gs[k + 1]);
                    } else {
                        assert(gs1[k] == before);
                    }
                }
                gs = gs1;
            }
        }
    }
}

impl Game {
    /// Sets the hit points and shields (fp8, current and maximum) of the
    /// unit in the slot a tag names; an empty or out-of-range slot is left
    /// alone.
    pub fn set_unit_health(&mut self, tag: u16, hp: i32, max_hp: i32, shields: i32, max_shields: i32)
        requires
            old(self)@.wf(),
        ensures
            units_only(old(self)@, final(self)@),
            ({
                let i = id_of_tag(tag).0 as int;
                if i < MAX_UNITS && old(self)@.units[i] is Some {
                    final(self)@.units == old(self)@.units.update(
                        i,
                        Some(UnitState { hp, max_hp, shields, max_shields, ..old(self)@.units[i].unwrap() }),
                    )
                } else {
                    final(self)@.units == old(self)@.units
                }
            }),
    {
        let i = (tag & 0x07FF) as usize;
        assert(tag & 0x07FF == id_of_tag(tag).0);
        if i < self.units.len() {
            let slot = take_slot(&mut self.units, i);
            match slot {
                Some(u) => {
                    let mut u = u;
                    u.hp = hp;
                    u.max_hp = max_hp;
                    u.shields = shields;
                    u.max_shields = max_shields;
                    self.units.set(i, Some(u));
                },
                None => {
                    self.units.set(i, None);
                },
            }
            assert(self@.units =~= if old(self)@.units[i as int] is Some {
                old(self)@.units.update(
                    i as int,
                    Some(UnitState { hp, max_hp, shields, max_shields, ..old(self)@.units[i as int].unwrap() }),
                )
            } else {
                old(self)@.units
            });
        }
    }
}

/// Collision radius (pixels) of a unit, as it was given when the unit was
/// created or last morphed.
pub open spec fn radius_of(u: UnitState) -> int {
    u.collision_radius as int
}

/// The largest `k <= r` with `k * k <= n` (0 when there is none).
pub open spec fn sqrt_below(n: int, r: int) -> int
    decreases r,
{
    if r <= 0 {
        0
    } else if r * r <= n {
        r
    } else {
        sqrt_below(n, r - 1)
    }
}

/// Unit `a` moved by (dx, dy) pixels, its exact position following.
pub open spec fn shifted(a: UnitState, dx: int, dy: int) -> UnitState {
    let px = wrap_i32(a.pixel_x + dx) as i32;
    let py = wrap_i32(a.pixel_y + dy) as i32;
    UnitState { pixel_x: px, pixel_y: py, exact_position: XY { x: Fp8(px << 8), y: Fp8(py << 8) }, ..a }
}

/// Slots `u` after pushing ground unit `i` (which stood at (ax, ay) with
/// radius `ar` when its turn began) and slot `j` apart where they overlap:
/// each moves half the overlap (at least 1 pixel) along the line between
/// them; against a building only unit `i` moves, twice as far.
pub open spec fn pushed_apart(u: Seq<Option<UnitState>>, i: int, j: int, ax: int, ay: int, ar: int) -> Seq<Option<UnitState>> {
    let s = u[j];
    if !(s is Some && s.unwrap().alive && !s.unwrap().is_air) {
        u
    } else {
        let b = s.unwrap();
        let dx = ax - b.pixel_x;
        let dy = ay - b.pixel_y;
        let md = ar + radius_of(b);
        let d2 = dx * dx + dy * dy;
        if !(d2 < md * md && d2 > 0) {
            u
        } else {
            let dist = sqrt_below(d2, 32);
            let push = if (md - dist) / 2 >= 1 { (md - dist) / 2 } else { 1 };
            let nx = trunc_div(dx * push, dist);
            let ny = trunc_div(dy * push, dist);
            if !b.is_building {
                u.update(i, Some(shifted(u[i].unwrap(), nx, ny))).update(j, Some(shifted(b, -nx, -ny)))
            } else {
                u.update(i, Some(shifted(u[i].unwrap(), 2 * nx, 2 * ny)))
            }
        }
    }
}

/// Slots `u` after unit `i` is pushed apart from slots `i + 1` to `end - 1`.
pub open spec fn row_pushed(u: Seq<Option<UnitState>>, i: int, ax: int, ay: int, ar: int, end: int) -> Seq<Option<UnitState>>
    decreases end - i,
{
    if end <= i + 1 {
        u
    } else {
        pushed_apart(row_pushed(u, i, ax, ay, ar, end - 1), i, end - 1, ax, ay, ar)
    }
}

/// Whether slot `i` holds a live ground unit that is no building.
pub open spec fn pushes(s: Option<UnitState>) -> bool {
    s is Some && s.unwrap().alive && !s.unwrap().is_air && !s.unwrap().is_building
}

/// Slots `u` after the first `n` slots' units have each been pushed apart
/// from the slots after them, in slot order.
pub open spec fn separated(u: Seq<Option<UnitState>>, n: int) -> Seq<Option<UnitState>>
    decreases n,
{
    if n <= 0 {
        u
    } else {
        let prev = separated(u, n - 1);
        let a = prev[n - 1];
        if pushes(a) {
            row_pushed(prev, n - 1, a.unwrap().pixel_x as int, a.unwrap().pixel_y as int, radius_of(a.unwrap()), MAX_UNITS as int)
        } else {
            prev
        }
    }
}

/// Moves a unit by (dx, dy) pixels.
fn shift_unit(u: &mut UnitState, dx: i32, dy: i32)
    ensures
        *final(u) == shifted(*old(u), dx as int, dy as int),
{
    let px = u.pixel_x.wrapping_add(dx);
    let py = u.pixel_y.wrapping_add(dy);
    proof {
        lemma_wrap_add_i32(old(u).pixel_x, dx);
        lemma_wrap_add_i32(old(u).pixel_y, dy);
    }
    u.pixel_x = px;
    u.pixel_y = py;
    u.exact_position = XY::from_pixels(px, py);
}

proof fn lemma_wrap_add_i32(x: i32, y: i32)
    ensures
        x.wrapping_add(y) == wrap_i32(x + y),
{
}

/// The floor square root of `n`, for `n` below 33 * 33.
fn floor_sqrt(n: i64) -> (r: i64)
    requires
        0 <= n < 33 * 33,
    ensures
        r == sqrt_below(n as int, 32),
        0 <= r <= 32,
{
    let mut r: i64 = 32;
    while r > 0
        invariant
            0 <= r <= 32,
            sqrt_below(n as int, r as int) == sqrt_below(n as int, 32),
        decreases r,
    {
        assert(0 <= r * r <= 32 * 32) by (nonlinear_arith)
            requires
                0 <= r <= 32,
        ;
        if r * r <= n {
            return r;
        }
        r = r - 1;
    }
    r
}

impl Game {
    /// Pushes slot `i` (at (ax, ay), radius `ar`) and slot `j` apart.
    #[verifier::rlimit(40)]
    fn push_pair(&mut self, i: usize, j: usize, ax: i32, ay: i32, ar: i32)
        requires
            old(self)@.wf(),
            i < j < MAX_UNITS,
            old(self)@.units[i as int] is Some,
            0 <= ar <= 16,
        ensures
            units_only(old(self)@, final(self)@),
            final(self)@.units == pushed_apart(old(self)@.units, i as int, j as int, ax as int, ay as int, ar as int),
            final(self)@.units[i as int] is Some,
    {
        let (bx, by, br, b_building, ok) = match &self.units[j] {
            Some(b) => (
                b.pixel_x,
                b.pixel_y,
                b.collision_radius as i32,
                b.is_building,
                b.alive && !b.is_air,
            ),
            None => (0, 0, 0, false, false),
        };
        if !ok {
            return;
        }
        let ghost b = self@.units[j as int].unwrap();
        assert(br == radius_of(b));
        let dx: i64 = ax as i64 - bx as i64;
        let dy: i64 = ay as i64 - by as i64;
        let md: i64 = ar as i64 + br as i64;
        if !(-33 < dx && dx < 33 && -33 < dy && dy < 33) {
            proof {
                assert(dx * dx >= 33 * 33 || dy * dy >= 33 * 33) by (nonlinear_arith)
                    requires
                        !(-33 < dx < 33 && -33 < dy < 33),
                ;
                assert(md * md <= 32 * 32) by (nonlinear_arith)
                    requires
                        0 <= md <= 32,
                ;
                assert(dx * dx >= 0 && dy * dy >= 0) by (nonlinear_arith);
            }
            return;
        }
        assert(0 <= dx * dx <= 33 * 33 && 0 <= dy * dy <= 33 * 33) by (nonlinear_arith)
            requires
                -33 < dx < 33,
                -33 < dy < 33,
        ;
        assert(0 <= md * md <= 32 * 32) by (nonlinear_arith)
            requires
                0 <= md <= 32,
        ;
        let d2: i64 = dx * dx + dy * dy;
        if !(d2 < md * md && d2 > 0) {
            return;
        }
        let dist = floor_sqrt(d2);
        assert(dist >= 1) by {
            assert(1 * 1 <= d2);
            lemma_sqrt_below_pos(d2 as int, 32);
        }
        let push: i64 = if (md - dist) / 2 >= 1 { (md - dist) / 2 } else { 1 };
        assert(0 <= push <= 16);
        assert(-33 * 16 <= dx * push <= 33 * 16) by (nonlinear_arith)
            requires
                -33 < dx < 33,
                0 <= push <= 16,
        ;
        assert(-33 * 16 <= dy * push <= 33 * 16) by (nonlinear_arith)
            requires
                -33 < dy < 33,
                0 <= push <= 16,
        ;
        let nx64: i64 = (dx * push) / dist;
        let ny64: i64 = (dy * push) / dist;
        assert(nx64 == trunc_div(dx * push, dist as int));
        assert(ny64 == trunc_div(dy * push, dist as int));
        assert(-33 * 16 <= nx64 <= 33 * 16) by (nonlinear_arith)
            requires
                nx64 == trunc_div(dx * push, dist as int),
                -33 * 16 <= dx * push <= 33 * 16,
                dist >= 1,
        ;
        assert(-33 * 16 <= ny64 <= 33 * 16) by (nonlinear_arith)
            requires
                ny64 == trunc_div(dy * push, dist as int),
                -33 * 16 <= dy * push <= 33 * 16,
                dist >= 1,
        ;
        let nx = nx64 as i32;
        let ny = ny64 as i32;
        let mut a = take_slot(&mut self.units, i).unwrap();
        if !b_building {
            shift_unit(&mut a, nx, ny);
            self.units.set(i, Some(a));
            let mut bu = take_slot(&mut self.units, j).unwrap();
            shift_unit(&mut bu, -nx, -ny);
            self.units.set(j, Some(bu));
        } else {
            shift_unit(&mut a, 2 * nx, 2 * ny);
            self.units.set(i, Some(a));
        }
    }

    /// Pushes overlapping ground units apart, each live ground unit that is
    /// no building against every later slot, in slot order.
    fn update_collision(&mut self)
        requires
            old(self)@.wf(),
        ensures
            units_only(old(self)@, final(self)@),
            final(self)@.units == separated(old(self)@.units, MAX_UNITS as int),
    {
        let mut i: usize = 0;
        while i < MAX_UNITS
            invariant
                i <= MAX_UNITS,
                units_only(old(self)@, self@),
                self@.units == separated(old(self)@.units, i as int),
            decreases MAX_UNITS - i,
        {
            let (ax, ay, ar, ok) = match &self.units[i] {
                Some(a) => (
                    a.pixel_x,
                    a.pixel_y,
                    a.collision_radius as i32,
                    a.alive && !a.is_air && !a.is_building,
                ),
                None => (0, 0, 0, false),
            };
            if ok {
                let ghost start = self@.units;
                let mut j: usize = i + 1;
                while j < MAX_UNITS
                    invariant
                        i < MAX_UNITS,
                        i + 1 <= j <= MAX_UNITS,
                        0 <= ar <= 16,
                        units_only(old(self)@, self@),
                        self@.units[i as int] is Some,
                        self@.units == row_pushed(start, i as int, ax as int, ay as int, ar as int, j as int),
                    decreases MAX_UNITS - j,
                {
                    self.push_pair(i, j, ax, ay, ar);
                    j += 1;
                }
            }
            i += 1;
        }
    }
}

/// A positive square stands at or above 1.
proof fn lemma_sqrt_below_pos(n: int, r: int)
    requires
        n >= 1,
        r >= 1,
    ensures
        sqrt_below(n, r) >= 1,
    decreases r,
{
    if r == 1 {
        assert(r * r == 1) by (nonlinear_arith)
            requires
                r == 1,
        ;
    } else if r * r > n {
        lemma_sqrt_below_pos(n, r - 1);
    }
}

impl Game {
    /// Hands a path to the unit in the slot a tag names: its waypoints are
    /// replaced and followed from the first. An empty or out-of-range slot is
    /// left alone.
    pub fn set_waypoints(&mut self, tag: u16, waypoints: Vec<(i32, i32)>)
        requires
            old(self)@.wf(),
        ensures
            units_only(old(self)@, final(self)@),
            ({
                let i = id_of_tag(tag).0 as int;
                if i < MAX_UNITS && old(self)@.units[i] is Some {
                    let v = final(self)@.units[i].unwrap();
                    &&& final(self)@.units.len() == old(self)@.units.len()
                    &&& forall|k: int| 0 <= k < MAX_UNITS && k != i ==> #[trigger] final(self)@.units[k] == old(self)@.units[k]
                    &&& final(self)@.units[i] is Some
                    &&& v == UnitState { waypoints: v.waypoints, waypoint_index: 0, ..old(self)@.units[i].unwrap() }
                    &&& v.waypoints@ == waypoints@
                } else {
                    final(self)@.units == old(self)@.units
                }
            }),
    {
        let i = (tag & 0x07FF) as usize;
        assert(tag & 0x07FF == id_of_tag(tag).0);
        if i < self.units.len() {
            let slot = take_slot(&mut self.units, i);
            match slot {
                Some(u) => {
                    let mut u = u;
                    u.waypoints = waypoints;
                    u.waypoint_index = 0;
                    self.units.set(i, Some(u));
                },
                None => {
                    self.units.set(i, None);
                    assert(self@.units =~= old(self)@.units);
                },
            }
        }
    }
}

/// A player's race in a list of (player, race) pairs: the last pair for the
/// player wins, and a player without one is Terran (1).
pub open spec fn race_in(races: Seq<(u8, u8)>, player: u8) -> u8
    decreases races.len(),
{
    if races.len() == 0 {
        1
    } else if races.last().0 == player {
        races.last().1
    } else {
        race_in(races.drop_last(), player)
    }
}

/// The starting units of one start location, in creation order: the
/// resource depot, for Zerg two larvae and an overlord placed 64 pixels
/// toward the map's centre on each axis, then four workers. Races: 0 Zerg
/// (hatchery, drone), 2 Protoss (nexus, probe), any other Terran (command
/// center, SCV).
pub open spec fn melee_units(player: u8, x: i32, y: i32, race: u8, map_w: i32, map_h: i32) -> Seq<Spawn> {
    let (depot, worker) = if race == 0 {
        (131u16, 41u16)
    } else if race == 2 {
        (154u16, 64u16)
    } else {
        (106u16, 7u16)
    };
    let w = (worker, player, x, y);
    let extra = if race == 0 {
        let ox = if x >= trunc_div(map_w as int, 2) { wrap_i32(x - 64) as i32 } else { wrap_i32(x + 64) as i32 };
        let oy = if y >= trunc_div(map_h as int, 2) { wrap_i32(y - 64) as i32 } else { wrap_i32(y + 64) as i32 };
        seq![
            (35u16, player, wrap_i32(x - 32) as i32, wrap_i32(y + 32) as i32),
            (35u16, player, wrap_i32(x + 32) as i32, wrap_i32(y + 32) as i32),
            (42u16, player, ox, oy)
        ]
    } else {
        Seq::empty()
    };
    seq![(depot, player, x, y)] + extra + seq![w, w, w, w]
}

/// The starting units of the first `n` start locations, in order.
pub open spec fn melee_spawns(starts: Seq<(u8, i32, i32)>, races: Seq<(u8, u8)>, map_w: i32, map_h: i32, n: int) -> Seq<Spawn>
    decreases n,
{
    if n <= 0 {
        Seq::empty()
    } else {
        let s = starts[n - 1];
        melee_spawns(starts, races, map_w, map_h, n - 1) + melee_units(s.0, s.1, s.2, race_in(races, s.0), map_w, map_h)
    }
}

/// A player's race in a list of (player, race) pairs (`race_in`).
fn race_of(races: &[(u8, u8)], player: u8) -> (r: u8)
    ensures
        r == race_in(races@, player),
{
    let mut k: usize = races.len();
    assert(races@.take(k as int) =~= races@);
    while k > 0
        invariant
            k <= races@.len(),
            race_in(races@.take(k as int), player) == race_in(races@, player),
        decreases k,
    {
        proof {
            assert(races@.take(k as int).drop_last() =~= races@.take(k - 1));
            assert(races@.take(k as int).last() == races@[k - 1]);
        }
        if races[k - 1].0 == player {
            return races[k - 1].1;
        }
        k = k - 1;
    }
    assert(races@.take(0) =~= Seq::<(u8, u8)>::empty());
    1
}

proof fn lemma_wrap_sub_i32(x: i32, y: i32)
    ensures
        x.wrapping_sub(y) == wrap_i32(x - y),
{
}

impl Game {
    /// Creates each start location's melee starting units (`melee_units`),
    /// start location by start location, on a map of the given size in
    /// pixels.
    pub fn create_melee_starting_units(
        &mut self,
        start_locations: &[(u8, i32, i32)],
        player_races: &[(u8, u8)],
        map_width_px: i32,
        map_height_px: i32,
    )
        requires
            old(self)@.wf(),
        ensures
            final(self)@.wf(),
            final(self)@.same_tables(old(self)@),
            final(self)@.current_frame == old(self)@.current_frame,
            final(self)@.selection == old(self)@.selection,
            final(self)@.players == old(self)@.players,
            spawned(
                old(self)@,
                final(self)@,
                melee_spawns(start_locations@, player_races@, map_width_px, map_height_px, start_locations@.len() as int),
            ),
    {
        let mut spawns: Vec<Spawn> = Vec::new();
        let mut i: usize = 0;
        while i < start_locations.len()
            invariant
                i <= start_locations@.len(),
                spawns@ == melee_spawns(start_locations@, player_races@, map_width_px, map_height_px, i as int),
            decreases start_locations@.len() - i,
        {
            let (player, x, y) = start_locations[i];
            let race = race_of(player_races, player);
            let ghost before = spawns@;
            let (depot, worker): (u16, u16) = if race == 0 {
                (131, 41)
            } else if race == 2 {
                (154, 64)
            } else {
                (106, 7)
            };
            spawns.push((depot, player, x, y));
            if race == 0 {
                proof {
                    lemma_wrap_sub_i32(x, 32);
                    lemma_wrap_add_i32(x, 32);
                    lemma_wrap_add_i32(y, 32);
                    lemma_wrap_sub_i32(x, 64);
                    lemma_wrap_add_i32(x, 64);
                    lemma_wrap_sub_i32(y, 64);
                    lemma_wrap_add_i32(y, 64);
                }
                spawns.push((35, player, x.wrapping_sub(32), y.wrapping_add(32)));
                spawns.push((35, player, x.wrapping_add(32), y.wrapping_add(32)));
                let half_w: i32 = map_width_px / 2;
                let half_h: i32 = map_height_px / 2;
                assert(half_w == trunc_div(map_width_px as int, 2));
                assert(half_h == trunc_div(map_height_px as int, 2));
                let ox = if x >= half_w {
                    x.wrapping_sub(64)
                } else {
                    x.wrapping_add(64)
                };
                let oy = if y >= half_h {
                    y.wrapping_sub(64)
                } else {
                    y.wrapping_add(64)
                };
                spawns.push((42, player, ox, oy));
                proof {
                    let mu0 = melee_units(player, x, y, race, map_width_px, map_height_px);
                    assert(mu0[1] == (35u16, player, x.wrapping_sub(32), y.wrapping_add(32)));
                    assert(mu0[2] == (35u16, player, x.wrapping_add(32), y.wrapping_add(32)));
                    assert(mu0[3] == (42u16, player, ox, oy));
                }
            }
            let ghost mu = melee_units(player, x, y, race, map_width_px, map_height_px);
            let ghost h: int = if race == 0 { 4 } else { 1 };
            proof {
                assert(mu.len() == h + 4);
                assert(mu[0] == (depot, player, x, y));
                assert forall|q: int| h <= q < h + 4 implies mu[q] == (worker, player, x, y) by {}
                assert(spawns@ =~= before + mu.take(h));
            }
            let mut k: usize = 0;
            while k < 4
                invariant
                    k <= 4,
                    mu == melee_units(player, x, y, race, map_width_px, map_height_px),
                    h == (if race == 0 { 4int } else { 1int }),
                    mu.len() == h + 4,
                    forall|q: int| h <= q < h + 4 ==> mu[q] == (worker, player, x, y),
                    spawns@.len() >= before.len(),
                    spawns@ == before + melee_units(player, x, y, race, map_width_px, map_height_px).take(
                        spawns@.len() - before.len(),
                    ),
                    spawns@.len() - before.len() == k + if race == 0 { 4int } else { 1int },
                decreases 4 - k,
            {
                spawns.push((worker, player, x, y));
                k += 1;
                assert(spawns@ =~= before + melee_units(player, x, y, race, map_width_px, map_height_px).take(
                    spawns@.len() - before.len(),
                ));
            }
            assert(melee_units(player, x, y, race, map_width_px, map_height_px).take(spawns@.len() - before.len())
                =~= melee_units(player, x, y, race, map_width_px, map_height_px));
            i += 1;
        }
        self.create_all(&spawns);
    }
}

/// The live units among the first `n` slots, in slot order.
pub open spec fn live_units(units: Seq<Option<UnitState>>, n: int) -> Seq<UnitState>
    decreases n,
{
    if n <= 0 {
        Seq::empty()
    } else if is_live(units[n - 1]) {
        live_units(units, n - 1).push(units[n - 1].unwrap())
    } else {
        live_units(units, n - 1)
    }
}

impl Game {
    /// The live units, in slot order.
    pub fn units(&self) -> (r: Vec<&UnitState>)
        requires
            self@.wf(),
        ensures
            r@.len() == live_units(self@.units, MAX_UNITS as int).len(),
            forall|k: int| 0 <= k < r@.len() ==> *#[trigger] r@[k] == live_units(self@.units, MAX_UNITS as int)[k],
    {
        let mut r: Vec<&UnitState> = Vec::new();
        let mut i: usize = 0;
        while i < MAX_UNITS
            invariant
                self@.wf(),
                i <= MAX_UNITS,
                r@.len() == live_units(self@.units, i as int).len(),
                forall|k: int| 0 <= k < r@.len() ==> *#[trigger] r@[k] == live_units(self@.units, i as int)[k],
            decreases MAX_UNITS - i,
        {
            match &self.units[i] {
                Some(u) => {
                    if u.alive {
                        r.push(u);
                    }
                },
                None => {},
            }
            i += 1;
        }
        r
    }
}

/// Slot `y` keeps what slot `x` had: an empty slot stays empty, and a unit
/// stays, with its queue, alive only if it was.
pub open spec fn kept(x: Option<UnitState>, y: Option<UnitState>) -> bool {
    match x {
        None => y is None,
        Some(u) => y is Some && (y.unwrap().alive ==> u.alive) && y.unwrap().build_queue@ == u.build_queue@,
    }
}

/// Every slot of `b` keeps what the same slot of `a` had.
pub open spec fn all_kept(a: Seq<Option<UnitState>>, b: Seq<Option<UnitState>>) -> bool {
    &&& a.len() == b.len()
    &&& forall|i: int| 0 <= i < a.len() ==> #[trigger] kept(a[i], b[i])
}

proof fn lemma_kept_trans(a: Seq<Option<UnitState>>, b: Seq<Option<UnitState>>, c: Seq<Option<UnitState>>)
    requires
        all_kept(a, b),
        all_kept(b, c),
    ensures
        all_kept(a, c),
{
    assert forall|i: int| 0 <= i < a.len() implies #[trigger] kept(a[i], c[i]) by {
        assert(kept(a[i], b[i]));
        assert(kept(b[i], c[i]));
    }
}

proof fn lemma_ticked_kept(a: Seq<Option<UnitState>>, b: Seq<Option<UnitState>>)
    requires
        all_ticked(a, b),
    ensures
        all_kept(a, b),
{
    assert forall|i: int| 0 <= i < a.len() implies #[trigger] kept(a[i], b[i]) by {
        if is_live(a[i]) {
            let x = a[i].unwrap();
            let y = b[i].unwrap();
            assert(ticked(x, y));
            let m = choose|m: UnitState| (if moves_now(x) { movement_step(x, m) } else { m == x }) && timers_run(m, y);
            assert(m.alive == x.alive && m.build_queue@ == x.build_queue@);
        } else {
            assert(b[i] == a[i]);
        }
    }
}

proof fn lemma_morphs_kept(v: GameView, a: Seq<Option<UnitState>>, b: Seq<Option<UnitState>>)
    requires
        all_morphs_ticked(v, a, b),
    ensures
        all_kept(a, b),
{
    assert forall|i: int| 0 <= i < a.len() implies #[trigger] kept(a[i], b[i]) by {
        if a[i] is Some {
            assert(morph_ticked(v, a[i].unwrap(), b[i].unwrap()));
        } else {
            assert(b[i] == a[i]);
        }
    }
}

proof fn lemma_resolved_one_kept(v: GameView, u: Seq<Option<UnitState>>, w: Seq<Option<UnitState>>, ai: int, tg: u16)
    requires
        resolved_one(v, u, w, ai, tg),
        0 <= ai < u.len(),
        u[ai] is Some,
    ensures
        all_kept(u, w),
{
    let ti = id_of_tag(tg).0 as int;
    assert forall|i: int| 0 <= i < u.len() implies #[trigger] kept(u[i], w[i]) by {
        if i != ai && i != ti {
            if ti < u.len() && is_live(u[ti]) {
                let t = u[ti].unwrap();
                let a = u[ai].unwrap();
                let wid = if t.is_air { a.air_weapon } else { a.ground_weapon };
                if has_weapon(v, wid) {
                    let ws = weapon_stats(v, wid);
                    let d2 = dist_sq(a, t);
                    let r2 = ws.max_range * ws.max_range;
                    if !(d2 <= r2 && a.weapon_cooldown == 0) && d2 > r2 && (a.move_state != MoveState::Moving
                        || a.move_target != Some((t.pixel_x as u16, t.pixel_y as u16))) {
                        assert(w[i] == u[i]);
                    }
                }
            }
        }
    }
}

proof fn lemma_chain_kept(v: GameView, states: Seq<Seq<Option<UnitState>>>, atk: Seq<(usize, u16)>, k: int)
    requires
        resolved_chain(v, states, atk),
        0 <= k <= atk.len(),
        forall|q: int| 0 <= q < atk.len() ==> (#[trigger] atk[q]).0 < states[0].len() && states[0][atk[q].0 as int] is Some,
    ensures
        all_kept(states[0], states[k]),
    decreases k,
{
    if k == 0 {
        assert forall|i: int| 0 <= i < states[0].len() implies #[trigger] kept(states[0][i], states[0][i]) by {}
    } else {
        lemma_chain_kept(v, states, atk, k - 1);
        let ai = atk[k - 1].0 as int;
        let kk = k - 1;
        assert(resolved_one(v, states[kk], states[kk + 1], atk[kk].0 as int, atk[kk].1));
        assert(kept(states[0][ai], states[k - 1][ai]));
        assert(states[0].len() == states[k - 1].len());
        lemma_resolved_one_kept(v, states[k - 1], states[k], ai, atk[k - 1].1);
        lemma_kept_trans(states[0], states[k - 1], states[k]);
    }
}

proof fn lemma_pushed_kept(u: Seq<Option<UnitState>>, i: int, j: int, ax: int, ay: int, ar: int)
    requires
        0 <= i < u.len(),
        0 <= j < u.len(),
        i != j,
        u[i] is Some,
    ensures
        all_kept(u, pushed_apart(u, i, j, ax, ay, ar)),
{
    let w = pushed_apart(u, i, j, ax, ay, ar);
    assert forall|k: int| 0 <= k < u.len() implies #[trigger] kept(u[k], w[k]) by {}
}

proof fn lemma_row_kept(u: Seq<Option<UnitState>>, i: int, ax: int, ay: int, ar: int, end: int)
    requires
        0 <= i < u.len(),
        end <= u.len(),
        u[i] is Some,
    ensures
        all_kept(u, row_pushed(u, i, ax, ay, ar, end)),
    decreases end - i,
{
    if end <= i + 1 {
        assert forall|k: int| 0 <= k < u.len() implies #[trigger] kept(u[k], u[k]) by {}
    } else {
        lemma_row_kept(u, i, ax, ay, ar, end - 1);
        let r = row_pushed(u, i, ax, ay, ar, end - 1);
        assert(kept(u[i], r[i]));
        lemma_pushed_kept(r, i, end - 1, ax, ay, ar);
        lemma_kept_trans(u, r, row_pushed(u, i, ax, ay, ar, end));
    }
}

proof fn lemma_separated_kept(u: Seq<Option<UnitState>>, n: int)
    requires
        u.len() == MAX_UNITS,
        0 <= n <= MAX_UNITS,
    ensures
        all_kept(u, separated(u, n)),
    decreases n,
{
    if n == 0 {
        assert forall|k: int| 0 <= k < u.len() implies #[trigger] kept(u[k], u[k]) by {}
    } else {
        lemma_separated_kept(u, n - 1);
        let prev = separated(u, n - 1);
        let a = prev[n - 1];
        if pushes(a) {
            lemma_row_kept(prev, n - 1, a.unwrap().pixel_x as int, a.unwrap().pixel_y as int, radius_of(a.unwrap()), MAX_UNITS as int);
            lemma_kept_trans(u, prev, separated(u, n));
        }
    }
}

proof fn lemma_live_count_kept(a: Seq<Option<UnitState>>, b: Seq<Option<UnitState>>, n: int)
    requires
        all_kept(a, b),
        0 <= n <= a.len(),
    ensures
        live_count(b, n) <= live_count(a, n),
    decreases n,
{
    if n > 0 {
        lemma_live_count_kept(a, b, n - 1);
        assert(kept(a[n - 1], b[n - 1]));
    }
}

proof fn lemma_nothing_finished(units: Seq<Option<UnitState>>, n: int)
    requires
        0 <= n <= units.len(),
        forall|i: int| 0 <= i < units.len() && is_live(#[trigger] units[i]) ==> units[i].unwrap().build_queue@.len() == 0,
    ensures
        finished_units(units, n).len() == 0,
    decreases n,
{
    if n > 0 {
        lemma_nothing_finished(units, n - 1);
        assert(finished(units[n - 1]) is None) by {
            if units[n - 1] is Some && units[n - 1].unwrap().alive {
                assert(is_live(units[n - 1]));
            }
        }
    }
}

/// No unit comes back across a frame: a slot that holds a dead unit still
/// holds one afterwards, so a tag that named a unit and finds none keeps
/// finding none; and when no live unit has anything queued, the number of
/// live units does not grow.
pub proof fn lemma_step_no_revival(a: GameView, b: GameView)
    requires
        a.wf(),
        step_effect(a, b),
    ensures
        forall|i: int|
            0 <= i < MAX_UNITS && #[trigger] a.units[i] is Some && !a.units[i].unwrap().alive ==> b.units[i] is Some
                && !b.units[i].unwrap().alive,
        forall|t: u16|
            id_of_tag(t).0 < a.next_unit_index && #[trigger] live_unit(a, t) is None ==> live_unit(b, t) is None,
        (forall|i: int| 0 <= i < MAX_UNITS && is_live(#[trigger] a.units[i]) ==> a.units[i].unwrap().build_queue@.len() == 0)
            ==> live_count(b.units, MAX_UNITS as int) <= live_count(a.units, MAX_UNITS as int),
{
    let (g1, g2, g3, g4, g5, g6, g7) = choose|
        g1: GameView,
        g2: GameView,
        g3: GameView,
        g4: GameView,
        g5: GameView,
        g6: GameView,
        g7: GameView,
    | step_parts(a, g1, g2, g3, g4, g5, g6, g7, b);
    lemma_tail_kept(g4, g5, g6, g7, b);
    lemma_ticked_kept(a.units, g1.units);
    lemma_morphs_kept(g1, g1.units, g2.units);
    let atk = attacks_of(g2, MAX_UNITS as int);
    lemma_attacks_from_units(g2, MAX_UNITS as int);
    let states = choose|states: Seq<Seq<Option<UnitState>>>|
        resolved_chain(g2, states, atk) && states[0] == g2.units && states.last() == g3.units;
    lemma_chain_kept(g2, states, atk, atk.len() as int);
    lemma_kept_trans(a.units, g1.units, g2.units);
    lemma_kept_trans(a.units, g2.units, g3.units);
    let m = choose|m: GameView|
        {
            &&& m.units.len() == g3.units.len()
            &&& m.same_tables(g3) && m.wf()
            &&& m.next_unit_index == g3.next_unit_index
            &&& m.current_frame == g3.current_frame
            &&& m.selection == g3.selection && m.players == g3.players
            &&& forall|i: int|
                0 <= i < MAX_UNITS ==> if g3.units[i] is Some {
                    m.units[i] is Some && prod_ticked(g3, g3.units[i].unwrap(), m.units[i].unwrap())
                } else {
                    #[trigger] m.units[i] == g3.units[i]
                }
            &&& spawned(m, g4, finished_units(g3.units, MAX_UNITS as int))
            &&& g4.same_tables(g3) && g4.wf()
            &&& g4.current_frame == g3.current_frame
            &&& g4.selection == g3.selection && g4.players == g3.players
        };
    // Dead units stay dead.
    assert forall|i: int|
        0 <= i < MAX_UNITS && #[trigger] a.units[i] is Some && !a.units[i].unwrap().alive implies b.units[i] is Some
            && !b.units[i].unwrap().alive by {
        assert(kept(a.units[i], g3.units[i]));
        assert(g3.units[i] is Some);
        assert(m.units[i] == g3.units[i]);
        assert(i < m.next_unit_index);
        assert(g4.units[i] == m.units[i]);
        assert(kept(g4.units[i], b.units[i]));
    }
    assert forall|t: u16|
        id_of_tag(t).0 < a.next_unit_index && #[trigger] live_unit(a, t) is None implies live_unit(b, t) is None by {
        let i = id_of_tag(t).0 as int;
        assert(a.units[i] is Some);
    }
    if forall|i: int| 0 <= i < MAX_UNITS && is_live(#[trigger] a.units[i]) ==> a.units[i].unwrap().build_queue@.len() == 0 {
        assert forall|i: int| 0 <= i < g3.units.len() && is_live(#[trigger] g3.units[i]) implies g3.units[i].unwrap().build_queue@.len() == 0 by {
            assert(kept(a.units[i], g3.units[i]));
        }
        lemma_nothing_finished(g3.units, MAX_UNITS as int);
        assert forall|i: int| 0 <= i < MAX_UNITS implies #[trigger] m.units[i] == g3.units[i] by {
            if g3.units[i] is Some && is_live(g3.units[i]) {
                assert(g3.units[i].unwrap().build_queue@.len() == 0);
            }
        }
        assert(m.units =~= g3.units);
        assert(finished_units(g3.units, MAX_UNITS as int) =~= Seq::<Spawn>::empty());
        assert(g4.next_unit_index == m.next_unit_index);
        assert forall|i: int| 0 <= i < MAX_UNITS implies #[trigger] g4.units[i] == m.units[i] by {}
        assert(g4.units =~= g3.units);
        lemma_kept_trans(a.units, g3.units, b.units);
        lemma_live_count_kept(a.units, b.units, MAX_UNITS as int);
    }
}

/// A frame's game is well formed.
proof fn lemma_step_wf(a: GameView, b: GameView)
    requires
        step_effect(a, b),
    ensures
        b.wf(),
        b.next_unit_index >= a.next_unit_index,
{
    let (g1, g2, g3, g4, g5, g6, g7) = choose|
        g1: GameView,
        g2: GameView,
        g3: GameView,
        g4: GameView,
        g5: GameView,
        g6: GameView,
        g7: GameView,
    | step_parts(a, g1, g2, g3, g4, g5, g6, g7, b);
    lemma_tail_kept(g4, g5, g6, g7, b);
    let m = choose|m: GameView|
        {
            &&& m.units.len() == g3.units.len()
            &&& m.same_tables(g3) && m.wf()
            &&& m.next_unit_index == g3.next_unit_index
            &&& m.current_frame == g3.current_frame
            &&& m.selection == g3.selection && m.players == g3.players
            &&& forall|i: int|
                0 <= i < MAX_UNITS ==> if g3.units[i] is Some {
                    m.units[i] is Some && prod_ticked(g3, g3.units[i].unwrap(), m.units[i].unwrap())
                } else {
                    #[trigger] m.units[i] == g3.units[i]
                }
            &&& spawned(m, g4, finished_units(g3.units, MAX_UNITS as int))
            &&& g4.same_tables(g3) && g4.wf()
            &&& g4.current_frame == g3.current_frame
            &&& g4.selection == g3.selection && g4.players == g3.players
        };
    lemma_spawned_grows(m.next_unit_index, m.unit_types, finished_units(g3.units, MAX_UNITS as int));
}

proof fn lemma_spawned_grows(start: int, types: Seq<UnitType>, spawns: Seq<Spawn>)
    ensures
        spawned_from(start, types, spawns).0 >= start,
    decreases spawns.len(),
{
    if spawns.len() > 0 {
        lemma_spawned_grows(start, types, spawns.drop_last());
    }
}

/// Over any run of frames no unit comes back: once a tag that named a unit
/// finds none, it finds none in every later frame.
pub proof fn lemma_steps_no_revival(gs: Seq<GameView>, t: u16, k: int)
    requires
        stepped(gs),
        gs.len() >= 1,
        gs[0].wf(),
        0 <= k < gs.len(),
        id_of_tag(t).0 < gs[0].next_unit_index,
        live_unit(gs[0], t) is None,
    ensures
        live_unit(gs[k], t) is None,
        gs[k].wf(),
        id_of_tag(t).0 < gs[k].next_unit_index,
    decreases k,
{
    if k > 0 {
        lemma_steps_no_revival(gs, t, k - 1);
        let kk = k - 1;
        assert(step_effect(gs[kk], gs[kk + 1]));
        lemma_step_no_revival(gs[kk], gs[kk + 1]);
        lemma_step_wf(gs[kk], gs[kk + 1]);
    }
}

impl Game {
    /// The map the game is played on.
    pub fn map(&self) -> (r: &TileMap)
        ensures
            r@ == self@.map,
    {
        &self.map
    }

    /// A player's visibility grid, one byte per tile: 0 never seen, 1
    /// explored but not visible now, 2 visible; empty for a player beyond the
    /// eighth.
    pub fn visibility_grid(&self, player: u8) -> (g: Vec<u8>)
        requires
            self@.wf(),
        ensures
            player >= PLAYERS ==> g@.len() == 0,
            player < PLAYERS ==> g@.len() == self@.vision.width * self@.vision.height && forall|i: int|
                0 <= i < g@.len() ==> #[trigger] g@[i] == (if self@.vision.visible[player as int][i] {
                    2u8
                } else if self@.vision.explored[player as int][i] {
                    1u8
                } else {
                    0u8
                }),
    {
        self.vision.visibility_grid(player)
    }

    /// The sight a unit type reveals (`sight_of`).
    fn sight_for(&self, t: u16) -> (r: u8)
        ensures
            r == sight_of(self@, t),
    {
        if (t as usize) < self.data.unit_types.len() {
            self.stats_for(t).sight_range
        } else {
            7
        }
    }

    /// Clears the vision and has every live unit of a player below 8 reveal
    /// around itself, in slot order.
    fn update_vision(&mut self)
        requires
            old(self)@.wf(),
        ensures
            vision_phase(old(self)@, final(self)@),
    {
        let ghost v0 = self@;
        self.vision.clear_visible();
        let ghost mut ms: Seq<VisionModel> = seq![self.vision@];
        let mut i: usize = 0;
        while i < MAX_UNITS
            invariant
                i <= MAX_UNITS,
                v0 == old(self)@,
                v0.wf(),
                self@ == (GameView { vision: self@.vision, vision_ok: self@.vision_ok, ..v0 }),
                self.vision.wf(),
                vision_shape(self@.vision, v0.map.width, v0.map.height),
                ms.len() == reveal_calls(v0, i as int).len() + 1,
                cleared(v0.vision, ms[0]),
                forall|k: int| 0 <= k < reveal_calls(v0, i as int).len() ==> follows(ms[k], #[trigger] ms[k + 1], reveal_calls(v0, i as int)[k]),
                ms.last() == self@.vision,
            decreases MAX_UNITS - i,
        {
            let (px, py, t, owner, live) = match &self.units[i] {
                Some(u) => (u.pixel_x, u.pixel_y, u.unit_type, u.owner, u.alive && u.owner < 8),
                None => (0, 0, 0, 0, false),
            };
            let ghost calls0 = reveal_calls(v0, i as int);
            if live {
                let sight = self.sight_for(t);
                let ghost before = self.vision@;
                self.vision.reveal_around(px, py, sight, owner);
                proof {
                    let calls1 = reveal_calls(v0, i + 1);
                    let c = VisionCall::Reveal { px, py, sight, owner };
                    assert(calls1 == calls0.push(c));
                    let ms1 = ms.push(self.vision@);
                    assert(follows(before, self.vision@, c));
                    assert forall|k: int| 0 <= k < calls1.len() implies follows(ms1[k], #[trigger] ms1[k + 1], calls1[k]) by {
                        if k < calls0.len() {
                            assert(ms1[k] == ms[k]);
                            assert(ms1[k + 1] == ms[k + 1]);
                            assert(calls1[k] == calls0[k]);
                        } else {
                            assert(ms1[k] == before);
                        }
                    }
                    ms = ms1;
                }
            } else {
                assert(reveal_calls(v0, i + 1) == calls0);
            }
            i += 1;
        }
        proof {
            let calls = reveal_calls(v0, MAX_UNITS as int);
            assert(self@ == (GameView { vision: self@.vision, ..v0 }));
            assert(vision_updated(v0.vision, self@.vision, calls));
        }
    }
}

/// The end of a frame keeps every slot's unit, alive only if it was, and
/// the game's invariant, next free slot and frame.
proof fn lemma_tail_kept(g4: GameView, g5: GameView, g6: GameView, g7: GameView, b: GameView)
    requires
        g4.wf(),
        step_tail(g4, g5, g6, g7, b),
    ensures
        all_kept(g4.units, b.units),
        b.wf(),
        b.next_unit_index == g4.next_unit_index,
        b.current_frame == g4.current_frame,
{
    assert(g5.units == g4.units && g5.wf() && g5.next_unit_index == g4.next_unit_index
        && g5.current_frame == g4.current_frame);
    assert forall|i: int| 0 <= i < g5.units.len() implies #[trigger] kept(g5.units[i], g6.units[i]) by {
        if g5.current_frame % 8 == 0 && g5.units[i] is Some {
            assert(mine_ticked(g5.units[i].unwrap(), g6.units[i].unwrap()));
        }
    }
    assert forall|i: int| 0 <= i < g6.units.len() implies #[trigger] kept(g6.units[i], g7.units[i]) by {
        if g6.units[i] is Some {
            assert(energy_ticked(g6.units[i].unwrap(), g7.units[i].unwrap()));
        }
    }
    lemma_kept_trans(g5.units, g6.units, g7.units);
    if g7.current_frame % 4 == 0 {
        lemma_separated_kept(g7.units, MAX_UNITS as int);
    } else {
        assert forall|i: int| 0 <= i < g7.units.len() implies #[trigger] kept(g7.units[i], b.units[i]) by {}
    }
    lemma_kept_trans(g5.units, g7.units, b.units);
}

proof fn lemma_wrap_add_wrap(v: int, c: int)
    ensures
        wrap_i32(wrap_i32(v) + c) == wrap_i32(v + c),
{
    let m = 0x1_0000_0000int;
    let k = 0x8000_0000int;
    vstd::arithmetic::div_mod::lemma_add_mod_noop(v + k, c, m);
    vstd::arithmetic::div_mod::lemma_mod_twice(c, m);
    assert(wrap_i32(v) + c + k == (v + k) % m + c);
    assert(((v + k) % m + c % m) % m == ((v + k) + c) % m);
    vstd::arithmetic::div_mod::lemma_add_mod_noop((v + k) % m, c, m);
    vstd::arithmetic::div_mod::lemma_mod_twice(v + k, m);
}

impl Game {
    /// Runs a mining round: every mining worker's trip runs, and each
    /// delivery adds 8 minerals or gas to its owner.
    fn update_mining(&mut self)
        requires
            old(self)@.wf(),
        ensures
            mining_phase(old(self)@, final(self)@),
    {
        let ghost v0 = self@;
        let mut i: usize = 0;
        while i < MAX_UNITS
            invariant
                i <= MAX_UNITS,
                v0 == old(self)@,
                v0.wf(),
                self@.same_tables(v0) && self@.wf(),
                self@.current_frame == v0.current_frame && self@.next_unit_index == v0.next_unit_index,
                self@.selection == v0.selection,
                forall|k: int| i <= k < MAX_UNITS ==> #[trigger] self@.units[k] == v0.units[k],
                forall|k: int|
                    0 <= k < i ==> if v0.units[k] is Some {
                        self@.units[k] is Some && mine_ticked(v0.units[k].unwrap(), self@.units[k].unwrap())
                    } else {
                        #[trigger] self@.units[k] == v0.units[k]
                    },
                self@.players.len() == MAX_PLAYERS,
                forall|p: int|
                    0 <= p < MAX_PLAYERS ==> #[trigger] self@.players[p] == (PlayerState {
                        minerals: wrap_i32(v0.players[p].minerals + 8 * deliveries(v0.units, p, false, i as int)) as i32,
                        gas: wrap_i32(v0.players[p].gas + 8 * deliveries(v0.units, p, true, i as int)) as i32,
                        ..v0.players[p]
                    }),
            decreases MAX_UNITS - i,
        {
            let ghost before = self@;
            let slot = take_slot(&mut self.units, i);
            match slot {
                Some(u) => {
                    let mut u = u;
                    let mining = u.alive && u.is_worker && u.owner < 8 && u.move_state == MoveState::AtRest
                        && u.attack_target.is_none();
                    let mut deliver = false;
                    if mining {
                        if u.mining_timer > 1 {
                            u.mining_timer = u.mining_timer - 1;
                        } else {
                            deliver = u.mining_timer == 1;
                            u.mining_timer = MINING_TRIP;
                        }
                    }
                    let owner = u.owner;
                    let gas = u.mining_target.is_some();
                    self.units.set(i, Some(u));
                    if deliver {
                        let ghost q = owner as int;
                        let mut ps = take_player(&mut self.player_states, owner as usize);
                        proof {
                            lemma_wrap_add_i32(ps.minerals, 8);
                            lemma_wrap_add_i32(ps.gas, 8);
                            lemma_wrap_add_wrap(v0.players[q].minerals + 8 * deliveries(v0.units, q, false, i as int), 8);
                            lemma_wrap_add_wrap(v0.players[q].gas + 8 * deliveries(v0.units, q, true, i as int), 8);
                        }
                        if gas {
                            ps.gas = ps.gas.wrapping_add(8);
                        } else {
                            ps.minerals = ps.minerals.wrapping_add(8);
                        }
                        self.player_states.set(owner as usize, ps);
                    }
                },
                None => {
                    self.units.set(i, None);
                },
            }
            proof {
                assert forall|p: int| 0 <= p < MAX_PLAYERS implies #[trigger] self@.players[p] == (PlayerState {
                    minerals: wrap_i32(v0.players[p].minerals + 8 * deliveries(v0.units, p, false, i + 1)) as i32,
                    gas: wrap_i32(v0.players[p].gas + 8 * deliveries(v0.units, p, true, i + 1)) as i32,
                    ..v0.players[p]
                }) by {
                    assert(v0.units[i as int] == before.units[i as int]);
                    assert(before.players[p] == (PlayerState {
                        minerals: wrap_i32(v0.players[p].minerals + 8 * deliveries(v0.units, p, false, i as int)) as i32,
                        gas: wrap_i32(v0.players[p].gas + 8 * deliveries(v0.units, p, true, i as int)) as i32,
                        ..v0.players[p]
                    }));
                }
            }
            i += 1;
        }
    }

    /// Runs a frame of energy: every live unit below its maximum gains 8.
    fn update_energy(&mut self)
        requires
            old(self)@.wf(),
        ensures
            energy_phase(old(self)@, final(self)@),
    {
        let mut i: usize = 0;
        while i < MAX_UNITS
            invariant
                i <= MAX_UNITS,
                units_only(old(self)@, self@),
                forall|k: int| i <= k < MAX_UNITS ==> #[trigger] self@.units[k] == old(self)@.units[k],
                forall|k: int|
                    0 <= k < i ==> if old(self)@.units[k] is Some {
                        self@.units[k] is Some && energy_ticked(old(self)@.units[k].unwrap(), self@.units[k].unwrap())
                    } else {
                        #[trigger] self@.units[k] == old(self)@.units[k]
                    },
            decreases MAX_UNITS - i,
        {
            let slot = take_slot(&mut self.units, i);
            match slot {
                Some(u) => {
                    let mut u = u;
                    if u.alive && u.max_energy > 0 && u.energy < u.max_energy {
                        let e: i64 = u.energy as i64 + 8;
                        u.energy = if e < u.max_energy as i64 {
                            e as i32
                        } else {
                            u.max_energy
                        };
                    }
                    self.units.set(i, Some(u));
                },
                None => {
                    self.units.set(i, None);
                },
            }
            i += 1;
        }
    }
}

} // verus!
