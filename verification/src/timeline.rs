//! Cumulative per-player production state, replayed from a build order.
//!
//! Each player's tally counts what was invested (minerals, gas), the supply
//! used and provided, and how many of each unit and building were produced;
//! losses are not tracked.
use std::collections::BTreeMap;
use vstd::prelude::*;

use crate::build_order::{BuildAction, BuildOrderEntry};
use crate::gamedata::{
    supply_provided, supply_provided_spec, tech_cost, tech_cost_spec, unit_cost, unit_cost_spec,
    upgrade_cost, upgrade_cost_spec,
};

verus! {

/// Minerals counted for a fighter order (an interceptor; a scarab would be
/// fifteen, but the order does not say which).
pub const FIGHTER_MINERALS: u32 = 25;

/// A player's cumulative production state.
#[derive(Debug)]
pub struct PlayerState {
    pub player_id: u8,
    pub minerals_invested: u32,
    pub gas_invested: u32,
    pub supply_used: u32,
    pub supply_max: u32,
    /// Unit type id to the number produced.
    pub units: BTreeMap<u16, u32>,
    /// Building type id to the number produced.
    pub buildings: BTreeMap<u16, u32>,
    /// Researched tech ids, in the order first researched.
    pub techs: Vec<u8>,
    /// Upgrade id to its level.
    pub upgrades: BTreeMap<u8, u8>,
}

/// The mathematical content of a [`PlayerState`].
pub struct PlayerTally {
    pub player_id: u8,
    pub minerals: int,
    pub gas: int,
    pub supply_used: int,
    pub supply_max: int,
    pub units: Map<u16, u32>,
    pub buildings: Map<u16, u32>,
    pub techs: Seq<u8>,
    pub upgrades: Map<u8, u8>,
}

impl View for PlayerState {
    type V = PlayerTally;

    open spec fn view(&self) -> PlayerTally {
        PlayerTally {
            player_id: self.player_id,
            minerals: self.minerals_invested as int,
            gas: self.gas_invested as int,
            supply_used: self.supply_used as int,
            supply_max: self.supply_max as int,
            units: self.units@,
            buildings: self.buildings@,
            techs: self.techs@,
            upgrades: self.upgrades@,
        }
    }
}

/// How many of `k` a count map holds (zero when absent).
pub open spec fn tally_of(m: Map<u16, u32>, k: u16) -> int {
    if m.contains_key(k) { m[k] as int } else { 0 }
}

/// The level an upgrade map holds for `k` (zero when absent).
pub open spec fn level_of(m: Map<u8, u8>, k: u8) -> int {
    if m.contains_key(k) { m[k] as int } else { 0 }
}

/// `m` with the count of `k` raised by one.
pub open spec fn bumped(m: Map<u16, u32>, k: u16) -> Map<u16, u32> {
    m.insert(k, (tally_of(m, k) + 1) as u32)
}

/// The tally of a player before any action.
pub open spec fn fresh_tally(player_id: u8) -> PlayerTally {
    PlayerTally {
        player_id,
        minerals: 0,
        gas: 0,
        supply_used: 0,
        supply_max: 0,
        units: Map::empty(),
        buildings: Map::empty(),
        techs: Seq::empty(),
        upgrades: Map::empty(),
    }
}

/// The unit type an action produces as a unit, if any.
pub open spec fn unit_made(a: BuildAction) -> Option<u16> {
    match a {
        BuildAction::Train(id) => Some(id),
        BuildAction::UnitMorph(id) => Some(id),
        _ => None,
    }
}

/// The building type an action produces, if any.
pub open spec fn building_made(a: BuildAction) -> Option<u16> {
    match a {
        BuildAction::Build(id) => Some(id),
        BuildAction::BuildingMorph(id) => Some(id),
        _ => None,
    }
}

/// The minerals and gas an action costs.
pub open spec fn action_cost(a: BuildAction) -> (int, int) {
    match a {
        BuildAction::Build(id) => (unit_cost_spec(id).0 as int, unit_cost_spec(id).1 as int),
        BuildAction::Train(id) => (unit_cost_spec(id).0 as int, unit_cost_spec(id).1 as int),
        BuildAction::UnitMorph(id) => (unit_cost_spec(id).0 as int, unit_cost_spec(id).1 as int),
        BuildAction::BuildingMorph(id) => (
            unit_cost_spec(id).0 as int,
            unit_cost_spec(id).1 as int,
        ),
        BuildAction::Research(id) => (tech_cost_spec(id).0 as int, tech_cost_spec(id).1 as int),
        BuildAction::Upgrade(id) => (
            upgrade_cost_spec(id).0 as int,
            upgrade_cost_spec(id).1 as int,
        ),
        BuildAction::TrainFighter => (FIGHTER_MINERALS as int, 0),
    }
}

/// The supply an action uses: that of a trained or morphed unit.
pub open spec fn supply_used_by(a: BuildAction) -> int {
    match unit_made(a) {
        Some(id) => unit_cost_spec(id).2 as int,
        None => 0,
    }
}

/// The supply an action provides: that of the unit or building it makes.
pub open spec fn supply_gained_by(a: BuildAction) -> int {
    match a {
        BuildAction::Build(id) => supply_provided_spec(id) as int,
        BuildAction::Train(id) => supply_provided_spec(id) as int,
        BuildAction::UnitMorph(id) => supply_provided_spec(id) as int,
        BuildAction::BuildingMorph(id) => supply_provided_spec(id) as int,
        _ => 0,
    }
}

/// The tally after one action.
pub open spec fn tally_apply(t: PlayerTally, a: BuildAction) -> PlayerTally {
    PlayerTally {
        player_id: t.player_id,
        minerals: t.minerals + action_cost(a).0,
        gas: t.gas + action_cost(a).1,
        supply_used: t.supply_used + supply_used_by(a),
        supply_max: t.supply_max + supply_gained_by(a),
        units: match unit_made(a) {
            Some(id) => bumped(t.units, id),
            None => t.units,
        },
        buildings: match building_made(a) {
            Some(id) => bumped(t.buildings, id),
            None => t.buildings,
        },
        techs: match a {
            BuildAction::Research(id) => if t.techs.contains(id) {
                t.techs
            } else {
                t.techs.push(id)
            },
            _ => t.techs,
        },
        upgrades: match a {
            BuildAction::Upgrade(id) => t.upgrades.insert(id, (level_of(t.upgrades, id) + 1) as u8),
            _ => t.upgrades,
        },
    }
}

/// Whether one action can be counted without a counter leaving its range.
pub open spec fn fits_apply(t: PlayerTally, a: BuildAction) -> bool {
    &&& t.minerals + action_cost(a).0 <= u32::MAX
    &&& t.gas + action_cost(a).1 <= u32::MAX
    &&& t.supply_used + supply_used_by(a) <= u32::MAX
    &&& t.supply_max + supply_gained_by(a) <= u32::MAX
    &&& (unit_made(a) matches Some(id) ==> tally_of(t.units, id) < u32::MAX)
    &&& (building_made(a) matches Some(id) ==> tally_of(t.buildings, id) < u32::MAX)
    &&& (a matches BuildAction::Upgrade(id) ==> level_of(t.upgrades, id) < u8::MAX)
}

/// Every action that makes a unit or a building adds to the supply cap
/// exactly what the game's supply table gives for that unit or building
/// (an overlord, a depot or a pylon adds 8), and no other action changes
/// the cap.
pub proof fn lemma_supply_from_what_is_made(t: PlayerTally, a: BuildAction)
    ensures
        unit_made(a) matches Some(id) ==> tally_apply(t, a).supply_max == t.supply_max + supply_provided_spec(id),
        building_made(a) matches Some(id) ==> tally_apply(t, a).supply_max == t.supply_max
            + supply_provided_spec(id),
        unit_made(a) is None && building_made(a) is None ==> tally_apply(t, a).supply_max == t.supply_max,
{
}

/// An action costs what the game's tables say: a unit or building its unit
/// cost, a research its tech cost, an upgrade its upgrade cost; a trained or
/// morphed unit uses the supply its unit cost names, and nothing else uses
/// supply.
pub proof fn lemma_costs_from_tables(t: PlayerTally, a: BuildAction)
    ensures
        (unit_made(a) matches Some(id) ==> tally_apply(t, a).minerals == t.minerals + unit_cost_spec(id).0
            && tally_apply(t, a).gas == t.gas + unit_cost_spec(id).1 && tally_apply(t, a).supply_used
            == t.supply_used + unit_cost_spec(id).2),
        (building_made(a) matches Some(id) ==> tally_apply(t, a).minerals == t.minerals + unit_cost_spec(id).0
            && tally_apply(t, a).gas == t.gas + unit_cost_spec(id).1 && tally_apply(t, a).supply_used
            == t.supply_used),
        (a matches BuildAction::Research(id) ==> tally_apply(t, a).minerals == t.minerals + tech_cost_spec(id).0
            && tally_apply(t, a).gas == t.gas + tech_cost_spec(id).1 && tally_apply(t, a).supply_used
            == t.supply_used),
        (a matches BuildAction::Upgrade(id) ==> tally_apply(t, a).minerals == t.minerals + upgrade_cost_spec(id).0
            && tally_apply(t, a).gas == t.gas + upgrade_cost_spec(id).1 && tally_apply(t, a).supply_used
            == t.supply_used),
{
}

/// Counting an action never lowers an investment, a supply figure or a
/// produced count, and never repeats a researched tech.
pub proof fn lemma_apply_grows(t: PlayerTally, a: BuildAction)
    ensures
        tally_apply(t, a).minerals >= t.minerals,
        tally_apply(t, a).gas >= t.gas,
        tally_apply(t, a).supply_used >= t.supply_used,
        tally_apply(t, a).supply_max >= t.supply_max,
        forall|k: u16| #[trigger] tally_of(t.units, k) < u32::MAX ==> tally_of(tally_apply(t, a).units, k) >= tally_of(t.units, k),
        forall|k: u16| #[trigger] tally_of(t.buildings, k) < u32::MAX ==> tally_of(tally_apply(t, a).buildings, k) >= tally_of(t.buildings, k),
        t.techs.no_duplicates() ==> tally_apply(t, a).techs.no_duplicates(),
{
}

/// Whatever the build order, a player's researched techs hold no repeats.
pub proof fn lemma_timeline_techs_distinct(entries: Seq<BuildOrderEntry>, pid: u8)
    ensures
        tally_after(entries, pid).techs.no_duplicates(),
    decreases entries.len(),
{
    if entries.len() > 0 {
        lemma_timeline_techs_distinct(entries.drop_last(), pid);
        lemma_apply_grows(tally_after(entries.drop_last(), pid), entries.last().action);
    }
}

/// Raises the count of `k` in `m` by one.
fn bump(m: &mut BTreeMap<u16, u32>, k: u16)
    requires
        tally_of(old(m)@, k) < u32::MAX,
    ensures
        final(m)@ == bumped(old(m)@, k),
{
    let c: u32 = match m.get(&k) {
        Some(v) => *v,
        None => 0,
    };
    m.insert(k, c + 1);
}

/// Whether `v` holds `x`.
fn holds_u8(v: &Vec<u8>, x: u8) -> (r: bool)
    ensures
        r == v@.contains(x),
{
    let mut i: usize = 0;
    while i < v.len()
        invariant
            i <= v.len(),
            forall|j: int| 0 <= j < i ==> v@[j] != x,
        decreases v.len() - i,
    {
        if v[i] == x {
            assert(v@[i as int] == x);
            return true;
        }
        i += 1;
    }
    false
}

impl PlayerState {
    /// A player with nothing invested or produced yet.
    pub fn new(player_id: u8) -> (r: PlayerState)
        ensures
            r@ == fresh_tally(player_id),
    {
        PlayerState {
            player_id,
            minerals_invested: 0,
            gas_invested: 0,
            supply_used: 0,
            supply_max: 0,
            units: BTreeMap::new(),
            buildings: BTreeMap::new(),
            techs: Vec::new(),
            upgrades: BTreeMap::new(),
        }
    }

    /// A copy of this state.
    pub fn snapshot(&self) -> (r: PlayerState)
        ensures
            r@ == self@,
    {
        let mut techs: Vec<u8> = Vec::new();
        let mut i: usize = 0;
        while i < self.techs.len()
            invariant
                i <= self.techs.len(),
                techs@ == self.techs@.take(i as int),
            decreases self.techs.len() - i,
        {
            techs.push(self.techs[i]);
            i += 1;
            assert(techs@ =~= self.techs@.take(i as int));
        }
        assert(techs@ =~= self.techs@);
        PlayerState {
            player_id: self.player_id,
            minerals_invested: self.minerals_invested,
            gas_invested: self.gas_invested,
            supply_used: self.supply_used,
            supply_max: self.supply_max,
            units: self.units.clone(),
            buildings: self.buildings.clone(),
            techs,
            upgrades: self.upgrades.clone(),
        }
    }

    /// Counts one build action: its cost, the supply it uses and provides,
    /// and what it produces, researches or upgrades.
    pub fn apply(&mut self, action: &BuildAction)
        requires
            fits_apply(old(self)@, *action),
        ensures
            final(self)@ == tally_apply(old(self)@, *action),
            unit_made(*action) matches Some(id) ==> final(self)@.supply_max == old(self)@.supply_max
                + supply_provided_spec(id),
            building_made(*action) matches Some(id) ==> final(self)@.supply_max == old(self)@.supply_max
                + supply_provided_spec(id),
    {
        proof {
            lemma_supply_from_what_is_made(old(self)@, *action);
        }
        match *action {
            BuildAction::Build(id) => {
                let (min, gas, _) = unit_cost(id);
                self.minerals_invested = self.minerals_invested + min;
                self.gas_invested = self.gas_invested + gas;
                bump(&mut self.buildings, id);
                self.supply_max = self.supply_max + supply_provided(id);
            },
            BuildAction::BuildingMorph(id) => {
                let (min, gas, _) = unit_cost(id);
                self.minerals_invested = self.minerals_invested + min;
                self.gas_invested = self.gas_invested + gas;
                bump(&mut self.buildings, id);
                self.supply_max = self.supply_max + supply_provided(id);
            },
            BuildAction::Train(id) => {
                let (min, gas, supply) = unit_cost(id);
                self.minerals_invested = self.minerals_invested + min;
                self.gas_invested = self.gas_invested + gas;
                self.supply_used = self.supply_used + supply;
                bump(&mut self.units, id);
                self.supply_max = self.supply_max + supply_provided(id);
            },
            BuildAction::UnitMorph(id) => {
                let (min, gas, supply) = unit_cost(id);
                self.minerals_invested = self.minerals_invested + min;
                self.gas_invested = self.gas_invested + gas;
                self.supply_used = self.supply_used + supply;
                bump(&mut self.units, id);
                self.supply_max = self.supply_max + supply_provided(id);
            },
            BuildAction::Research(id) => {
                let (min, gas) = tech_cost(id);
                self.minerals_invested = self.minerals_invested + min;
                self.gas_invested = self.gas_invested + gas;
                if !holds_u8(&self.techs, id) {
                    self.techs.push(id);
                }
            },
            BuildAction::Upgrade(id) => {
                let (min, gas) = upgrade_cost(id);
                self.minerals_invested = self.minerals_invested + min;
                self.gas_invested = self.gas_invested + gas;
                let level: u8 = match self.upgrades.get(&id) {
                    Some(v) => *v,
                    None => 0,
                };
                self.upgrades.insert(id, level + 1);
            },
            BuildAction::TrainFighter => {
                self.minerals_invested = self.minerals_invested + FIGHTER_MINERALS;
            },
        }
    }
}

/// The tally of player `pid` after the given build order entries.
pub open spec fn tally_after(entries: Seq<BuildOrderEntry>, pid: u8) -> PlayerTally
    decreases entries.len(),
{
    if entries.len() == 0 {
        fresh_tally(pid)
    } else {
        let prev = tally_after(entries.drop_last(), pid);
        if entries.last().player_id == pid {
            tally_apply(prev, entries.last().action)
        } else {
            prev
        }
    }
}

/// Whether every entry of a listed player can be counted without a counter
/// leaving its range.
pub open spec fn timeline_fits(entries: Seq<BuildOrderEntry>, ids: Seq<u8>) -> bool {
    forall|k: int|
        0 <= k < entries.len() && ids.contains(#[trigger] entries[k].player_id) ==> fits_apply(
            tally_after(entries.take(k), entries[k].player_id),
            entries[k].action,
        )
}

/// The player ids of a sequence of states.
pub open spec fn ids_of(ps: Seq<PlayerState>) -> Seq<u8> {
    ps.map_values(|p: PlayerState| p.player_id)
}

/// Whether `ps` holds one state per distinct id of `ids`, in increasing id
/// order.
pub open spec fn roster_ok(ps: Seq<PlayerState>, ids: Seq<u8>) -> bool {
    &&& forall|a: int, b: int|
        0 <= a < b < ps.len() ==> #[trigger] ps[a].player_id < #[trigger] ps[b].player_id
    &&& forall|x: u8| ids.contains(x) <==> ids_of(ps).contains(x)
}

/// The frame of the snapshot after `k` entries: zero before any.
pub open spec fn frame_at(entries: Seq<BuildOrderEntry>, k: int) -> u32 {
    if k == 0 {
        0
    } else {
        entries[k - 1].frame
    }
}

/// The game state after some build order entries.
pub struct TimelineSnapshot {
    pub frame: u32,
    /// One state per listed player, in increasing player id order.
    pub players: Vec<PlayerState>,
}

/// Whether `s` is the snapshot after the first `k` of `entries`.
pub open spec fn snapshot_ok(
    s: TimelineSnapshot,
    entries: Seq<BuildOrderEntry>,
    ids: Seq<u8>,
    k: int,
) -> bool {
    &&& s.frame == frame_at(entries, k)
    &&& roster_ok(s.players@, ids)
    &&& forall|j: int|
        0 <= j < s.players@.len() ==> (#[trigger] s.players@[j])@ == tally_after(
            entries.take(k),
            s.players@[j].player_id,
        )
}

/// One fresh state per distinct id, in increasing id order.
fn roster(player_ids: &[u8]) -> (r: Vec<PlayerState>)
    ensures
        roster_ok(r@, player_ids@),
        forall|j: int| 0 <= j < r@.len() ==> (#[trigger] r@[j])@ == fresh_tally(r@[j].player_id),
{
    let mut r: Vec<PlayerState> = Vec::new();
    let mut i: usize = 0;
    while i < player_ids.len()
        invariant
            i <= player_ids.len(),
            roster_ok(r@, player_ids@.take(i as int)),
            forall|j: int|
                0 <= j < r@.len() ==> (#[trigger] r@[j])@ == fresh_tally(r@[j].player_id),
        decreases player_ids.len() - i,
    {
        let id = player_ids[i];
        let ghost before = r@;
        let ghost seen = player_ids@.take(i as int);
        assert(player_ids@.take(i + 1) =~= seen.push(id));
        let mut pos: usize = 0;
        while pos < r.len() && r[pos].player_id < id
            invariant
                pos <= r.len(),
                r@ == before,
                forall|a: int| 0 <= a < pos ==> (#[trigger] r@[a]).player_id < id,
            decreases r.len() - pos,
        {
            pos += 1;
        }
        if pos < r.len() && r[pos].player_id == id {
            assert(ids_of(r@)[pos as int] == id);
            assert forall|x: u8| player_ids@.take(i + 1).contains(x) <==> ids_of(r@).contains(
                x,
            ) by {
                if x == id {
                    assert(ids_of(r@)[pos as int] == x);
                }
                if seen.contains(x) {
                }
                if ids_of(r@).contains(x) {
                    assert(seen.contains(x));
                }
            }
        } else {
            r.insert(pos, PlayerState::new(id));
            assert forall|a: int, b: int| 0 <= a < b < r@.len() implies #[trigger] r@[a].player_id
                < #[trigger] r@[b].player_id by {
                if a < pos && b == pos {
                } else if a < pos && b > pos {
                    assert(before[a].player_id < id);
                    assert(r@[b] == before[b - 1]);
                    if pos < before.len() {
                        assert(before[pos as int].player_id >= id);
                        if b - 1 > pos {
                            assert(before[pos as int].player_id < before[b - 1].player_id);
                        }
                    }
                } else if a == pos {
                    assert(r@[b] == before[b - 1]);
                    assert(before[pos as int].player_id >= id);
                    if b - 1 > pos {
                        assert(before[pos as int].player_id < before[b - 1].player_id);
                    }
                } else if a > pos {
                    assert(r@[a] == before[a - 1]);
                    assert(r@[b] == before[b - 1]);
                } else {
                    assert(r@[a] == before[a]);
                    assert(r@[b] == before[b]);
                }
            }
            assert forall|x: u8| player_ids@.take(i + 1).contains(x) <==> ids_of(r@).contains(
                x,
            ) by {
                if x == id {
                    assert(ids_of(r@)[pos as int] == x);
                }
                if seen.contains(x) {
                    assert(ids_of(before).contains(x));
                    let w = choose|w: int| 0 <= w < ids_of(before).len() && ids_of(before)[w] == x;
                    assert(before[w].player_id == x);
                    if w < pos {
                        assert(r@[w] == before[w]);
                        assert(ids_of(r@)[w] == x);
                    } else {
                        assert(r@[w + 1] == before[w]);
                        assert(ids_of(r@)[w + 1] == x);
                    }
                }
                if ids_of(r@).contains(x) {
                    let w = choose|w: int| 0 <= w < ids_of(r@).len() && ids_of(r@)[w] == x;
                    assert(r@[w].player_id == x);
                    if w < pos {
                        assert(r@[w] == before[w]);
                        assert(ids_of(before)[w] == x);
                        assert(seen.contains(x));
                    } else if w > pos {
                        assert(r@[w] == before[w - 1]);
                        assert(ids_of(before)[w - 1] == x);
                        assert(seen.contains(x));
                    } else {
                        assert(x == id);
                    }
                    assert(seen.push(id).contains(x)) by {
                        if x == id {
                            assert(seen.push(id)[seen.len() as int] == x);
                        } else {
                            let v = choose|v: int| 0 <= v < seen.len() && seen[v] == x;
                            assert(seen.push(id)[v] == x);
                        }
                    }
                }
            }
            assert forall|j: int| 0 <= j < r@.len() implies (#[trigger] r@[j])@ == fresh_tally(
                r@[j].player_id,
            ) by {
                if j < pos {
                    assert(r@[j] == before[j]);
                } else if j > pos {
                    assert(r@[j] == before[j - 1]);
                }
            }
        }
        i += 1;
    }
    assert(player_ids@.take(i as int) =~= player_ids@);
    r
}

/// A sequence with the same player ids in the same order keeps a roster.
proof fn lemma_same_roster(a: Seq<PlayerState>, b: Seq<PlayerState>, ids: Seq<u8>)
    requires
        a.len() == b.len(),
        forall|j: int| 0 <= j < a.len() ==> (#[trigger] a[j]).player_id == b[j].player_id,
        roster_ok(a, ids),
    ensures
        roster_ok(b, ids),
        ids_of(b) == ids_of(a),
{
    assert(ids_of(b) =~= ids_of(a));
    assert forall|x: int, y: int| 0 <= x < y < b.len() implies #[trigger] b[x].player_id
        < #[trigger] b[y].player_id by {
        assert(a[x].player_id == b[x].player_id);
        assert(a[y].player_id == b[y].player_id);
    }
}

/// Copies of each state.
fn copy_states(v: &Vec<PlayerState>) -> (r: Vec<PlayerState>)
    ensures
        r@.len() == v@.len(),
        forall|j: int| 0 <= j < v@.len() ==> (#[trigger] r@[j])@ == v@[j]@,
        forall|j: int| 0 <= j < v@.len() ==> (#[trigger] r@[j]).player_id == v@[j].player_id,
{
    let mut r: Vec<PlayerState> = Vec::new();
    let mut i: usize = 0;
    while i < v.len()
        invariant
            i <= v.len(),
            r@.len() == i,
            forall|j: int| 0 <= j < i ==> (#[trigger] r@[j])@ == v@[j]@,
        decreases v.len() - i,
    {
        r.push(v[i].snapshot());
        i += 1;
    }
    r
}

/// The index of the state of player `pid`, if there is one.
fn find_player(v: &Vec<PlayerState>, pid: u8) -> (r: Option<usize>)
    ensures
        match r {
            Some(j) => j < v@.len() && v@[j as int].player_id == pid,
            None => forall|j: int| 0 <= j < v@.len() ==> (#[trigger] v@[j]).player_id != pid,
        },
{
    let mut i: usize = 0;
    while i < v.len()
        invariant
            i <= v.len(),
            forall|j: int| 0 <= j < i ==> (#[trigger] v@[j]).player_id != pid,
        decreases v.len() - i,
    {
        if v[i].player_id == pid {
            return Some(i);
        }
        i += 1;
    }
    None
}

/// Replays a build order and records every player's state before the first
/// entry (at frame zero) and after each entry.
///
/// Players are the distinct ids of `player_ids`, in increasing order; an
/// entry of a player not listed changes no state but still adds a snapshot.
pub fn build_timeline(build_order: &[BuildOrderEntry], player_ids: &[u8]) -> (r: Vec<
    TimelineSnapshot,
>)
    requires
        timeline_fits(build_order@, player_ids@),
    ensures
        r@.len() == build_order@.len() + 1,
        forall|k: int|
            0 <= k < r@.len() ==> snapshot_ok(#[trigger] r@[k], build_order@, player_ids@, k),
{
    let mut states = roster(player_ids);
    let ghost roster_ids = ids_of(states@);
    assert(build_order@.take(0) =~= Seq::<BuildOrderEntry>::empty());
    let mut snapshots: Vec<TimelineSnapshot> = Vec::new();
    let first = copy_states(&states);
    proof {
        lemma_same_roster(states@, first@, player_ids@);
    }
    snapshots.push(TimelineSnapshot { frame: 0, players: first });
    let mut k: usize = 0;
    while k < build_order.len()
        invariant
            k <= build_order.len(),
            snapshots@.len() == k + 1,
            timeline_fits(build_order@, player_ids@),
            roster_ok(states@, player_ids@),
            ids_of(states@) == roster_ids,
            forall|j: int|
                0 <= j < states@.len() ==> (#[trigger] states@[j])@ == tally_after(
                    build_order@.take(k as int),
                    states@[j].player_id,
                ),
            forall|s: int|
                0 <= s < snapshots@.len() ==> snapshot_ok(
                    #[trigger] snapshots@[s],
                    build_order@,
                    player_ids@,
                    s,
                ),
        decreases build_order.len() - k,
    {
        let e = build_order[k];
        let ghost before = states@;
        let ghost upto = build_order@.take(k as int);
        let ghost next = build_order@.take(k + 1);
        assert(next.drop_last() =~= upto);
        assert(next.last() == e);
        match find_player(&states, e.player_id) {
            Some(j) => {
                assert(ids_of(states@)[j as int] == e.player_id);
                assert(player_ids@.contains(e.player_id));
                assert(fits_apply(tally_after(upto, e.player_id), e.action));
                let mut st = states[j].snapshot();
                st.apply(&e.action);
                states.set(j, st);
                assert forall|a: int| 0 <= a < states@.len() implies (#[trigger] states@[a])@
                    == tally_after(next, states@[a].player_id) by {
                    if a != j {
                        assert(states@[a] == before[a]);
                        if a < j {
                            assert(before[a].player_id < before[j as int].player_id);
                        } else {
                            assert(before[j as int].player_id < before[a].player_id);
                        }
                    }
                }
                assert(ids_of(states@) =~= ids_of(before));
                assert forall|a: int, b: int| 0 <= a < b < states@.len() implies #[trigger] states@[
                    a].player_id < #[trigger] states@[b].player_id by {
                    assert(states@[a].player_id == ids_of(states@)[a]);
                    assert(states@[b].player_id == ids_of(states@)[b]);
                    assert(before[a].player_id < before[b].player_id);
                }
            },
            None => {
                assert forall|a: int| 0 <= a < states@.len() implies (#[trigger] states@[a])@
                    == tally_after(next, states@[a].player_id) by {
                    assert(states@[a].player_id != e.player_id);
                }
            },
        }
        let players = copy_states(&states);
        proof {
            lemma_same_roster(states@, players@, player_ids@);
        }
        snapshots.push(TimelineSnapshot { frame: e.frame, players });
        k += 1;
        assert forall|s: int| 0 <= s < snapshots@.len() implies snapshot_ok(
            #[trigger] snapshots@[s],
            build_order@,
            player_ids@,
            s,
        ) by {
            if s == k {
                assert(snapshots@[s].players@ == players@);
            }
        }
    }
    snapshots
}

/// The count a map holds for `k` (zero when absent).
fn count_or_zero(m: &BTreeMap<u16, u32>, k: u16) -> (r: u32)
    ensures
        r == tally_of(m@, k),
{
    match m.get(&k) {
        Some(v) => *v,
        None => 0,
    }
}

/// The level an upgrade map holds for `k` (zero when absent).
fn level_or_zero(m: &BTreeMap<u8, u8>, k: u8) -> (r: u8)
    ensures
        r == level_of(m@, k),
{
    match m.get(&k) {
        Some(v) => *v,
        None => 0,
    }
}

impl PlayerState {
    /// Whether `apply` can count this action without a counter leaving its
    /// range.
    pub fn can_apply(&self, action: &BuildAction) -> (r: bool)
        ensures
            r == fits_apply(self@, *action),
    {
        let (min, gas, used, gain): (u32, u32, u32, u32) = match *action {
            BuildAction::Build(id) => {
                let c = unit_cost(id);
                (c.0, c.1, 0, supply_provided(id))
            },
            BuildAction::BuildingMorph(id) => {
                let c = unit_cost(id);
                (c.0, c.1, 0, supply_provided(id))
            },
            BuildAction::Train(id) => {
                let c = unit_cost(id);
                (c.0, c.1, c.2, supply_provided(id))
            },
            BuildAction::UnitMorph(id) => {
                let c = unit_cost(id);
                (c.0, c.1, c.2, supply_provided(id))
            },
            BuildAction::Research(id) => {
                let c = tech_cost(id);
                (c.0, c.1, 0, 0)
            },
            BuildAction::Upgrade(id) => {
                let c = upgrade_cost(id);
                (c.0, c.1, 0, 0)
            },
            BuildAction::TrainFighter => (FIGHTER_MINERALS, 0, 0, 0),
        };
        let max = u32::MAX as u64;
        if self.minerals_invested as u64 + min as u64 > max || self.gas_invested as u64 + gas as u64
            > max || self.supply_used as u64 + used as u64 > max || self.supply_max as u64
            + gain as u64 > max {
            return false;
        }
        match *action {
            BuildAction::Train(id) => count_or_zero(&self.units, id) < u32::MAX,
            BuildAction::UnitMorph(id) => count_or_zero(&self.units, id) < u32::MAX,
            BuildAction::Build(id) => count_or_zero(&self.buildings, id) < u32::MAX,
            BuildAction::BuildingMorph(id) => count_or_zero(&self.buildings, id) < u32::MAX,
            BuildAction::Upgrade(id) => level_or_zero(&self.upgrades, id) < u8::MAX,
            _ => true,
        }
    }
}

/// Whether `build_timeline` can replay this build order: no counter of a
/// listed player leaves its range.
pub fn timeline_fits_check(build_order: &[BuildOrderEntry], player_ids: &[u8]) -> (r: bool)
    ensures
        r == timeline_fits(build_order@, player_ids@),
{
    let mut states = roster(player_ids);
    let ghost roster_ids = ids_of(states@);
    assert(build_order@.take(0) =~= Seq::<BuildOrderEntry>::empty());
    let mut k: usize = 0;
    while k < build_order.len()
        invariant
            k <= build_order.len(),
            roster_ok(states@, player_ids@),
            ids_of(states@) == roster_ids,
            forall|j: int|
                0 <= j < states@.len() ==> (#[trigger] states@[j])@ == tally_after(
                    build_order@.take(k as int),
                    states@[j].player_id,
                ),
            forall|q: int|
                0 <= q < k && player_ids@.contains(#[trigger] build_order@[q].player_id) ==> fits_apply(
                    tally_after(build_order@.take(q), build_order@[q].player_id),
                    build_order@[q].action,
                ),
        decreases build_order.len() - k,
    {
        let e = build_order[k];
        let ghost before = states@;
        let ghost upto = build_order@.take(k as int);
        let ghost next = build_order@.take(k + 1);
        assert(next.drop_last() =~= upto);
        assert(next.last() == e);
        match find_player(&states, e.player_id) {
            Some(j) => {
                assert(ids_of(states@)[j as int] == e.player_id);
                assert(player_ids@.contains(e.player_id));
                if !states[j].can_apply(&e.action) {
                    assert(player_ids@.contains(build_order@[k as int].player_id));
                    return false;
                }
                let mut st = states[j].snapshot();
                st.apply(&e.action);
                states.set(j, st);
                assert forall|a: int| 0 <= a < states@.len() implies (#[trigger] states@[a])@
                    == tally_after(next, states@[a].player_id) by {
                    if a != j {
                        assert(states@[a] == before[a]);
                        if a < j {
                            assert(before[a].player_id < before[j as int].player_id);
                        } else {
                            assert(before[j as int].player_id < before[a].player_id);
                        }
                    }
                }
                assert(ids_of(states@) =~= ids_of(before));
                assert forall|a: int, b: int| 0 <= a < b < states@.len() implies #[trigger] states@[
                    a].player_id < #[trigger] states@[b].player_id by {
                    assert(states@[a].player_id == ids_of(states@)[a]);
                    assert(states@[b].player_id == ids_of(states@)[b]);
                    assert(before[a].player_id < before[b].player_id);
                }
            },
            None => {
                assert(!ids_of(states@).contains(e.player_id)) by {
                    if ids_of(states@).contains(e.player_id) {
                        let w = choose|w: int| 0 <= w < ids_of(states@).len() && ids_of(states@)[w] == e.player_id;
                        assert(states@[w].player_id == e.player_id);
                    }
                }
                assert(!player_ids@.contains(e.player_id));
                assert forall|a: int| 0 <= a < states@.len() implies (#[trigger] states@[a])@
                    == tally_after(next, states@[a].player_id) by {
                    assert(states@[a].player_id != e.player_id);
                }
            },
        }
        k += 1;
    }
    true
}

} // verus!
