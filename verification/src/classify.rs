//! Opening classification: names a player's opening from the first build
//! order actions, by known competitive patterns for each race.
use vstd::prelude::*;
use crate::build_order::{BuildAction, BuildOrderEntry};
use crate::header::Race;

verus! {

pub const BARRACKS: u16 = 111;
pub const FACTORY: u16 = 113;
pub const STARPORT: u16 = 114;
pub const ACADEMY: u16 = 112;
pub const COMMAND_CENTER: u16 = 106;
pub const SUPPLY_DEPOT: u16 = 109;
pub const REFINERY: u16 = 110;
pub const BUNKER: u16 = 125;
pub const MACHINE_SHOP: u16 = 120;
pub const SPAWNING_POOL: u16 = 142;
pub const HATCHERY: u16 = 131;
pub const LAIR: u16 = 132;
pub const HYDRA_DEN: u16 = 135;
pub const SPIRE: u16 = 141;
pub const GATEWAY: u16 = 160;
pub const FORGE: u16 = 166;
pub const NEXUS: u16 = 154;
pub const CYBERNETICS: u16 = 164;
pub const ASSIMILATOR: u16 = 157;
pub const PYLON: u16 = 156;
pub const CITADEL: u16 = 163;
pub const TEMPLAR_ARCHIVES: u16 = 165;
pub const STARGATE: u16 = 167;
pub const ROBOTICS: u16 = 155;
pub const CANNON: u16 = 162;
/// Drone unit type.
pub const DRONE: u16 = 41;
/// How many of a player's first actions the classification looks at.
pub const OPENING_ACTIONS: usize = 15;

/// A recognised opening.
#[derive(Debug, Clone, Copy, PartialEq, Eq, Structural)]
pub enum Opening {
    Unknown,
    OneOneOne,
    TwoRaxAcademy,
    TwoRax,
    Bio,
    Mech,
    FactoryExpand,
    OneRaxFe,
    CcFirst,
    BunkerRush,
    BarracksFirst,
    UnknownTerran,
    ThreeHatchBeforePool,
    TwelveHatch,
    MutaBuild,
    HydraBuild,
    LairTech,
    FourPool,
    NinePool,
    TwelvePool,
    Overpool,
    UnknownZerg,
    NexusFirst,
    ForgeFeCannon,
    /// Forge before the first gateway.
    ForgeFe,
    /// Forge, and no gateway yet.
    ForgeFeNoGateway,
    DtRush,
    TwoGateCore,
    TwoGate,
    OneGateStargate,
    OneGateRobo,
    OneGateCitadel,
    OneGateFe,
    OneGateCore,
    GatewayFirst,
    UnknownProtoss,
}

/// Human-readable name of an opening.
pub open spec fn opening_name(o: Opening) -> &'static str {
    match o {
        Opening::Unknown => "Unknown",
        Opening::OneOneOne => "1-1-1",
        Opening::TwoRaxAcademy => "2 Rax Academy",
        Opening::TwoRax => "2 Rax",
        Opening::Bio => "Bio",
        Opening::Mech => "Mech",
        Opening::FactoryExpand => "Factory Expand",
        Opening::OneRaxFe => "1 Rax FE",
        Opening::CcFirst => "CC First",
        Opening::BunkerRush => "Bunker Rush",
        Opening::BarracksFirst => "Barracks First",
        Opening::UnknownTerran => "Unknown Terran",
        Opening::ThreeHatchBeforePool => "3 Hatch Before Pool",
        Opening::TwelveHatch => "12 Hatch",
        Opening::MutaBuild => "Muta Build",
        Opening::HydraBuild => "Hydra Build",
        Opening::LairTech => "Lair Tech",
        Opening::FourPool => "4/5 Pool",
        Opening::NinePool => "9 Pool",
        Opening::TwelvePool => "12 Pool",
        Opening::Overpool => "Overpool",
        Opening::UnknownZerg => "Unknown Zerg",
        Opening::NexusFirst => "Nexus First",
        Opening::ForgeFeCannon => "Forge FE + Cannon",
        Opening::ForgeFe => "Forge FE",
        Opening::ForgeFeNoGateway => "Forge FE",
        Opening::DtRush => "DT Rush",
        Opening::TwoGateCore => "2 Gate Core",
        Opening::TwoGate => "2 Gate",
        Opening::OneGateStargate => "1 Gate Stargate",
        Opening::OneGateRobo => "1 Gate Robo",
        Opening::OneGateCitadel => "1 Gate Citadel",
        Opening::OneGateFe => "1 Gate FE",
        Opening::OneGateCore => "1 Gate Core",
        Opening::GatewayFirst => "Gateway First",
        Opening::UnknownProtoss => "Unknown Protoss",
    }
}

/// Short database tag of an opening.
pub open spec fn opening_tag(o: Opening) -> &'static str {
    match o {
        Opening::Unknown => "unknown",
        Opening::OneOneOne => "111",
        Opening::TwoRaxAcademy => "2rax_academy",
        Opening::TwoRax => "2rax",
        Opening::Bio => "bio",
        Opening::Mech => "mech",
        Opening::FactoryExpand => "fe_factory",
        Opening::OneRaxFe => "1rax_fe",
        Opening::CcFirst => "cc_first",
        Opening::BunkerRush => "bunker_rush",
        Opening::BarracksFirst => "rax_first",
        Opening::UnknownTerran => "unknown_t",
        Opening::ThreeHatchBeforePool => "3hatch_pool",
        Opening::TwelveHatch => "12hatch",
        Opening::MutaBuild => "muta",
        Opening::HydraBuild => "hydra",
        Opening::LairTech => "lair_tech",
        Opening::FourPool => "4pool",
        Opening::NinePool => "9pool",
        Opening::TwelvePool => "12pool",
        Opening::Overpool => "overpool",
        Opening::UnknownZerg => "unknown_z",
        Opening::NexusFirst => "nexus_first",
        Opening::ForgeFeCannon => "forge_fe_cannon",
        Opening::ForgeFe => "forge_fe",
        Opening::ForgeFeNoGateway => "forge_fe",
        Opening::DtRush => "dt_rush",
        Opening::TwoGateCore => "2gate_core",
        Opening::TwoGate => "2gate",
        Opening::OneGateStargate => "1gate_stargate",
        Opening::OneGateRobo => "1gate_robo",
        Opening::OneGateCitadel => "1gate_citadel",
        Opening::OneGateFe => "1gate_fe",
        Opening::OneGateCore => "1gate_core",
        Opening::GatewayFirst => "gate_first",
        Opening::UnknownProtoss => "unknown_p",
    }
}

/// How sure a match is, in hundredths (0 to 100).
pub open spec fn opening_confidence(o: Opening) -> u8 {
    match o {
        Opening::Unknown => 0,
        Opening::OneOneOne => 85,
        Opening::TwoRaxAcademy => 80,
        Opening::TwoRax => 80,
        Opening::Bio => 70,
        Opening::Mech => 75,
        Opening::FactoryExpand => 70,
        Opening::OneRaxFe => 60,
        Opening::CcFirst => 75,
        Opening::BunkerRush => 70,
        Opening::BarracksFirst => 50,
        Opening::UnknownTerran => 30,
        Opening::ThreeHatchBeforePool => 85,
        Opening::TwelveHatch => 80,
        Opening::MutaBuild => 75,
        Opening::HydraBuild => 70,
        Opening::LairTech => 65,
        Opening::FourPool => 85,
        Opening::NinePool => 80,
        Opening::TwelvePool => 75,
        Opening::Overpool => 65,
        Opening::UnknownZerg => 30,
        Opening::NexusFirst => 80,
        Opening::ForgeFeCannon => 85,
        Opening::ForgeFe => 85,
        Opening::ForgeFeNoGateway => 75,
        Opening::DtRush => 80,
        Opening::TwoGateCore => 80,
        Opening::TwoGate => 80,
        Opening::OneGateStargate => 80,
        Opening::OneGateRobo => 80,
        Opening::OneGateCitadel => 75,
        Opening::OneGateFe => 80,
        Opening::OneGateCore => 70,
        Opening::GatewayFirst => 50,
        Opening::UnknownProtoss => 30,
    }
}

impl Opening {
    /// Human-readable name, e.g. "9 Pool".
    pub fn name(self) -> (r: &'static str)
        ensures
            r == opening_name(self),
    {
        match self {
            Opening::Unknown => "Unknown",
            Opening::OneOneOne => "1-1-1",
            Opening::TwoRaxAcademy => "2 Rax Academy",
            Opening::TwoRax => "2 Rax",
            Opening::Bio => "Bio",
            Opening::Mech => "Mech",
            Opening::FactoryExpand => "Factory Expand",
            Opening::OneRaxFe => "1 Rax FE",
            Opening::CcFirst => "CC First",
            Opening::BunkerRush => "Bunker Rush",
            Opening::BarracksFirst => "Barracks First",
            Opening::UnknownTerran => "Unknown Terran",
            Opening::ThreeHatchBeforePool => "3 Hatch Before Pool",
            Opening::TwelveHatch => "12 Hatch",
            Opening::MutaBuild => "Muta Build",
            Opening::HydraBuild => "Hydra Build",
            Opening::LairTech => "Lair Tech",
            Opening::FourPool => "4/5 Pool",
            Opening::NinePool => "9 Pool",
            Opening::TwelvePool => "12 Pool",
            Opening::Overpool => "Overpool",
            Opening::UnknownZerg => "Unknown Zerg",
            Opening::NexusFirst => "Nexus First",
            Opening::ForgeFeCannon => "Forge FE + Cannon",
            Opening::ForgeFe => "Forge FE",
            Opening::ForgeFeNoGateway => "Forge FE",
            Opening::DtRush => "DT Rush",
            Opening::TwoGateCore => "2 Gate Core",
            Opening::TwoGate => "2 Gate",
            Opening::OneGateStargate => "1 Gate Stargate",
            Opening::OneGateRobo => "1 Gate Robo",
            Opening::OneGateCitadel => "1 Gate Citadel",
            Opening::OneGateFe => "1 Gate FE",
            Opening::OneGateCore => "1 Gate Core",
            Opening::GatewayFirst => "Gateway First",
            Opening::UnknownProtoss => "Unknown Protoss",
        }
    }

    /// How sure the match is, in hundredths: 85 reads as 0.85.
    pub fn confidence_pct(self) -> (r: u8)
        ensures
            r == opening_confidence(self),
            r <= 100,
    {
        match self {
            Opening::Unknown => 0,
            Opening::OneOneOne => 85,
            Opening::TwoRaxAcademy => 80,
            Opening::TwoRax => 80,
            Opening::Bio => 70,
            Opening::Mech => 75,
            Opening::FactoryExpand => 70,
            Opening::OneRaxFe => 60,
            Opening::CcFirst => 75,
            Opening::BunkerRush => 70,
            Opening::BarracksFirst => 50,
            Opening::UnknownTerran => 30,
            Opening::ThreeHatchBeforePool => 85,
            Opening::TwelveHatch => 80,
            Opening::MutaBuild => 75,
            Opening::HydraBuild => 70,
            Opening::LairTech => 65,
            Opening::FourPool => 85,
            Opening::NinePool => 80,
            Opening::TwelvePool => 75,
            Opening::Overpool => 65,
            Opening::UnknownZerg => 30,
            Opening::NexusFirst => 80,
            Opening::ForgeFeCannon => 85,
            Opening::ForgeFe => 85,
            Opening::ForgeFeNoGateway => 75,
            Opening::DtRush => 80,
            Opening::TwoGateCore => 80,
            Opening::TwoGate => 80,
            Opening::OneGateStargate => 80,
            Opening::OneGateRobo => 80,
            Opening::OneGateCitadel => 75,
            Opening::OneGateFe => 80,
            Opening::OneGateCore => 70,
            Opening::GatewayFirst => 50,
            Opening::UnknownProtoss => 30,
        }
    }

    /// Short database tag, e.g. "9pool".
    pub fn tag(self) -> (r: &'static str)
        ensures
            r == opening_tag(self),
    {
        match self {
            Opening::Unknown => "unknown",
            Opening::OneOneOne => "111",
            Opening::TwoRaxAcademy => "2rax_academy",
            Opening::TwoRax => "2rax",
            Opening::Bio => "bio",
            Opening::Mech => "mech",
            Opening::FactoryExpand => "fe_factory",
            Opening::OneRaxFe => "1rax_fe",
            Opening::CcFirst => "cc_first",
            Opening::BunkerRush => "bunker_rush",
            Opening::BarracksFirst => "rax_first",
            Opening::UnknownTerran => "unknown_t",
            Opening::ThreeHatchBeforePool => "3hatch_pool",
            Opening::TwelveHatch => "12hatch",
            Opening::MutaBuild => "muta",
            Opening::HydraBuild => "hydra",
            Opening::LairTech => "lair_tech",
            Opening::FourPool => "4pool",
            Opening::NinePool => "9pool",
            Opening::TwelvePool => "12pool",
            Opening::Overpool => "overpool",
            Opening::UnknownZerg => "unknown_z",
            Opening::NexusFirst => "nexus_first",
            Opening::ForgeFeCannon => "forge_fe_cannon",
            Opening::ForgeFe => "forge_fe",
            Opening::ForgeFeNoGateway => "forge_fe",
            Opening::DtRush => "dt_rush",
            Opening::TwoGateCore => "2gate_core",
            Opening::TwoGate => "2gate",
            Opening::OneGateStargate => "1gate_stargate",
            Opening::OneGateRobo => "1gate_robo",
            Opening::OneGateCitadel => "1gate_citadel",
            Opening::OneGateFe => "1gate_fe",
            Opening::OneGateCore => "1gate_core",
            Opening::GatewayFirst => "gate_first",
            Opening::UnknownProtoss => "unknown_p",
        }
    }
}

/// The actions of `player` in `entries`, in order.
pub open spec fn player_actions(entries: Seq<BuildOrderEntry>, player: u8) -> Seq<BuildAction>
    decreases entries.len(),
{
    if entries.len() == 0 {
        Seq::empty()
    } else {
        let prev = player_actions(entries.drop_last(), player);
        if entries.last().player_id == player {
            prev.push(entries.last().action)
        } else {
            prev
        }
    }
}

/// The opening actions of `player`: its first `OPENING_ACTIONS` actions.
pub open spec fn opening_actions_spec(entries: Seq<BuildOrderEntry>, player: u8) -> Seq<BuildAction> {
    let all = player_actions(entries, player);
    if all.len() <= OPENING_ACTIONS { all } else { all.take(OPENING_ACTIONS as int) }
}

/// Buildings placed (`Build`) among `actions`, in order; with `morphs`,
/// building morphs count too.
pub open spec fn buildings_of(actions: Seq<BuildAction>, morphs: bool) -> Seq<u16>
    decreases actions.len(),
{
    if actions.len() == 0 {
        Seq::empty()
    } else {
        let prev = buildings_of(actions.drop_last(), morphs);
        match actions.last() {
            BuildAction::Build(id) => prev.push(id),
            BuildAction::BuildingMorph(id) => if morphs { prev.push(id) } else { prev },
            _ => prev,
        }
    }
}

/// Number of occurrences of `x` in `s`.
pub open spec fn count_of(s: Seq<u16>, x: u16) -> int
    decreases s.len(),
{
    if s.len() == 0 {
        0
    } else {
        count_of(s.drop_last(), x) + if s.last() == x { 1int } else { 0int }
    }
}

/// Index of the first `x` in `s`, if any.
pub open spec fn first_index(s: Seq<u16>, x: u16) -> Option<int>
    decreases s.len(),
{
    if s.len() == 0 {
        None
    } else {
        match first_index(s.drop_last(), x) {
            Some(i) => Some(i),
            None => if s.last() == x { Some(s.len() - 1) } else { None },
        }
    }
}

/// First element of `s` that is none of `a`, `b`, `c`.
pub open spec fn first_other(s: Seq<u16>, a: u16, b: u16, c: u16) -> Option<u16>
    decreases s.len(),
{
    if s.len() == 0 {
        None
    } else {
        match first_other(s.drop_last(), a, b, c) {
            Some(v) => Some(v),
            None => if s.last() != a && s.last() != b && s.last() != c { Some(s.last()) } else { None },
        }
    }
}

/// Terran opening of the buildings placed, in order.
pub open spec fn terran_opening(b: Seq<u16>) -> Opening {
    let rax = count_of(b, BARRACKS);
    let factory = b.contains(FACTORY);
    let starport = b.contains(STARPORT);
    let academy = b.contains(ACADEMY);
    let cc = count_of(b, COMMAND_CENTER);
    let first = first_other(b, SUPPLY_DEPOT, REFINERY, COMMAND_CENTER);
    if b.len() == 0 {
        Opening::Unknown
    } else if rax >= 1 && factory && starport && !academy {
        Opening::OneOneOne
    } else if rax >= 2 && !factory {
        if academy { Opening::TwoRaxAcademy } else { Opening::TwoRax }
    } else if rax >= 1 && academy && !factory {
        Opening::Bio
    } else if factory && rax == 1 {
        if starport {
            Opening::Mech
        } else if b.contains(MACHINE_SHOP) {
            Opening::FactoryExpand
        } else {
            Opening::OneRaxFe
        }
    } else if cc >= 2 && first == Some(COMMAND_CENTER) {
        Opening::CcFirst
    } else if b.contains(BUNKER) && first_index(b, BUNKER).unwrap() < 4 {
        Opening::BunkerRush
    } else if first == Some(BARRACKS) {
        Opening::BarracksFirst
    } else {
        Opening::UnknownTerran
    }
}

/// Protoss opening of the buildings placed, in order.
pub open spec fn protoss_opening(b: Seq<u16>) -> Opening {
    let gates = count_of(b, GATEWAY);
    let core = b.contains(CYBERNETICS);
    let forge = b.contains(FORGE);
    let nexus = count_of(b, NEXUS);
    let first = first_other(b, PYLON, ASSIMILATOR, NEXUS);
    let forge_idx = first_index(b, FORGE);
    let gate_idx = first_index(b, GATEWAY);
    if b.len() == 0 {
        Opening::Unknown
    } else if nexus >= 2 && first == Some(NEXUS) {
        Opening::NexusFirst
    } else if forge_idx is Some && gate_idx is Some && forge_idx.unwrap() < gate_idx.unwrap() {
        if b.contains(CANNON) { Opening::ForgeFeCannon } else { Opening::ForgeFe }
    } else if forge && gates == 0 {
        Opening::ForgeFeNoGateway
    } else if b.contains(TEMPLAR_ARCHIVES) && gates >= 1 {
        Opening::DtRush
    } else if gates >= 2 {
        if core { Opening::TwoGateCore } else { Opening::TwoGate }
    } else if gates == 1 && core {
        if b.contains(STARGATE) {
            Opening::OneGateStargate
        } else if b.contains(ROBOTICS) {
            Opening::OneGateRobo
        } else if b.contains(CITADEL) {
            Opening::OneGateCitadel
        } else if nexus >= 2 {
            Opening::OneGateFe
        } else {
            Opening::OneGateCore
        }
    } else if gates == 1 {
        Opening::GatewayFirst
    } else {
        Opening::UnknownProtoss
    }
}

/// Frame of `player`'s first `Build` of a spawning pool among `entries`.
pub open spec fn pool_frame(entries: Seq<BuildOrderEntry>, player: u8) -> Option<u32>
    decreases entries.len(),
{
    if entries.len() == 0 {
        None
    } else {
        match pool_frame(entries.drop_last(), player) {
            Some(f) => Some(f),
            None => {
                let e = entries.last();
                if e.player_id == player && e.action == BuildAction::Build(SPAWNING_POOL) {
                    Some(e.frame)
                } else {
                    None
                }
            },
        }
    }
}

/// Number of drones `player` trained before frame `pf`.
pub open spec fn drones_before(entries: Seq<BuildOrderEntry>, player: u8, pf: u32) -> int
    decreases entries.len(),
{
    if entries.len() == 0 {
        0
    } else {
        let e = entries.last();
        drones_before(entries.drop_last(), player, pf) + if e.player_id == player && e.frame < pf
            && e.action == BuildAction::Train(DRONE) {
            1int
        } else {
            0int
        }
    }
}

/// Zerg opening from the buildings placed or morphed, in order, and the
/// player's whole build order (for the drone count before the pool).
pub open spec fn zerg_opening(b: Seq<u16>, entries: Seq<BuildOrderEntry>, player: u8) -> Opening {
    let pool_idx = first_index(b, SPAWNING_POOL);
    let hatch_idx = first_index(b, HATCHERY);
    let drones = match pool_frame(entries, player) {
        Some(pf) => drones_before(entries, player, pf),
        None => 0,
    };
    let supply = 4 + drones;
    if b.len() == 0 {
        Opening::Unknown
    } else if pool_idx is Some && hatch_idx is Some && hatch_idx.unwrap() < pool_idx.unwrap() {
        if count_of(b.take(pool_idx.unwrap()), HATCHERY) >= 2 {
            Opening::ThreeHatchBeforePool
        } else {
            Opening::TwelveHatch
        }
    } else if pool_idx is Some {
        if b.contains(SPIRE) && !b.contains(HYDRA_DEN) {
            Opening::MutaBuild
        } else if b.contains(HYDRA_DEN) {
            Opening::HydraBuild
        } else if b.contains(LAIR) {
            Opening::LairTech
        } else if supply <= 5 {
            Opening::FourPool
        } else if supply <= 9 {
            Opening::NinePool
        } else if supply <= 12 {
            Opening::TwelvePool
        } else {
            Opening::Overpool
        }
    } else {
        Opening::UnknownZerg
    }
}

/// Opening of `player`, of race `race`, in the build order `entries`.
pub open spec fn opening_of(entries: Seq<BuildOrderEntry>, player: u8, race: Race) -> Opening {
    let actions = opening_actions_spec(entries, player);
    match race {
        Race::Terran => terran_opening(buildings_of(actions, false)),
        Race::Zerg => zerg_opening(buildings_of(actions, true), entries, player),
        Race::Protoss => protoss_opening(buildings_of(actions, false)),
        Race::Unknown(_) => Opening::Unknown,
    }
}


/// The opening actions of `player`: its first `OPENING_ACTIONS` actions.
pub fn opening_actions(entries: &[BuildOrderEntry], player: u8) -> (r: Vec<BuildAction>)
    ensures
        r@ == opening_actions_spec(entries@, player),
{
    let mut out: Vec<BuildAction> = Vec::new();
    let mut i: usize = 0;
    while i < entries.len()
        invariant
            i <= entries@.len(),
            out@ == (if player_actions(entries@.take(i as int), player).len() <= OPENING_ACTIONS {
                player_actions(entries@.take(i as int), player)
            } else {
                player_actions(entries@.take(i as int), player).take(OPENING_ACTIONS as int)
            }),
        decreases entries@.len() - i,
    {
        proof {
            assert(entries@.take(i as int + 1).drop_last() =~= entries@.take(i as int));
        }
        let e = entries[i];
        if e.player_id == player && out.len() < OPENING_ACTIONS {
            out.push(e.action);
        }
        proof {
            let all = player_actions(entries@.take(i as int + 1), player);
            let prev = player_actions(entries@.take(i as int), player);
            if all.len() > OPENING_ACTIONS && prev.len() > OPENING_ACTIONS {
                assert(all.take(OPENING_ACTIONS as int) =~= prev.take(OPENING_ACTIONS as int));
            } else if all.len() > OPENING_ACTIONS {
                assert(all.take(OPENING_ACTIONS as int) =~= prev);
            }
        }
        i = i + 1;
    }
    proof {
        assert(entries@.take(entries@.len() as int) =~= entries@);
    }
    out
}

/// The buildings placed (`Build`), or with `morphs` placed or morphed, in order.
pub fn buildings(actions: &Vec<BuildAction>, morphs: bool) -> (r: Vec<u16>)
    ensures
        r@ == buildings_of(actions@, morphs),
{
    let mut out: Vec<u16> = Vec::new();
    let mut i: usize = 0;
    while i < actions.len()
        invariant
            i <= actions@.len(),
            out@ == buildings_of(actions@.take(i as int), morphs),
        decreases actions@.len() - i,
    {
        proof {
            assert(actions@.take(i as int + 1).drop_last() =~= actions@.take(i as int));
        }
        match actions[i] {
            BuildAction::Build(id) => out.push(id),
            BuildAction::BuildingMorph(id) => {
                if morphs {
                    out.push(id);
                }
            },
            _ => {},
        }
        i = i + 1;
    }
    proof {
        assert(actions@.take(actions@.len() as int) =~= actions@);
    }
    out
}

/// Number of occurrences of `x` in `v`.
pub fn count_in(v: &Vec<u16>, x: u16) -> (r: usize)
    ensures
        r == count_of(v@, x),
{
    let mut n: usize = 0;
    let mut i: usize = 0;
    while i < v.len()
        invariant
            i <= v@.len(),
            n == count_of(v@.take(i as int), x),
            n <= i,
        decreases v@.len() - i,
    {
        proof {
            assert(v@.take(i as int + 1).drop_last() =~= v@.take(i as int));
        }
        if v[i] == x {
            n = n + 1;
        }
        i = i + 1;
    }
    proof {
        assert(v@.take(v@.len() as int) =~= v@);
    }
    n
}

proof fn lemma_first_index(s: Seq<u16>, x: u16)
    ensures
        first_index(s, x) matches Some(i) ==> 0 <= i < s.len() && s[i] == x && forall|j: int| 0 <= j < i ==> s[j] != x,
        first_index(s, x) is None ==> forall|j: int| 0 <= j < s.len() ==> s[j] != x,
    decreases s.len(),
{
    if s.len() > 0 {
        lemma_first_index(s.drop_last(), x);
        assert forall|j: int| 0 <= j < s.len() - 1 implies s.drop_last()[j] == s[j] by {}
    }
}

/// Index of the first `x` in `v`, if any.
pub fn index_in(v: &Vec<u16>, x: u16) -> (r: Option<usize>)
    ensures
        r matches Some(i) ==> first_index(v@, x) == Some(i as int),
        r is None ==> first_index(v@, x) is None,
        r is Some <==> v@.contains(x),
{
    proof {
        lemma_first_index(v@, x);
    }
    let mut i: usize = 0;
    while i < v.len()
        invariant
            i <= v@.len(),
            forall|j: int| 0 <= j < i ==> v@[j] != x,
        decreases v@.len() - i,
    {
        if v[i] == x {
            proof {
                lemma_first_index(v@, x);
                match first_index(v@, x) {
                    Some(k) => {
                        assert(k == i);
                    },
                    None => {},
                }
            }
            return Some(i);
        }
        i = i + 1;
    }
    proof {
        lemma_first_index(v@, x);
    }
    None
}

/// First element of `v` that is none of `a`, `b`, `c`.
pub fn first_other_in(v: &Vec<u16>, a: u16, b: u16, c: u16) -> (r: Option<u16>)
    ensures
        r == first_other(v@, a, b, c),
{
    let mut i: usize = 0;
    while i < v.len()
        invariant
            i <= v@.len(),
            first_other(v@.take(i as int), a, b, c) is None,
        decreases v@.len() - i,
    {
        proof {
            assert(v@.take(i as int + 1).drop_last() =~= v@.take(i as int));
        }
        let e = v[i];
        if e != a && e != b && e != c {
            proof {
                lemma_first_other_prefix(v@, a, b, c, i as int + 1);
            }
            return Some(e);
        }
        i = i + 1;
    }
    proof {
        assert(v@.take(v@.len() as int) =~= v@);
    }
    None
}

proof fn lemma_first_other_prefix(s: Seq<u16>, a: u16, b: u16, c: u16, k: int)
    requires
        0 <= k <= s.len(),
        first_other(s.take(k), a, b, c) is Some,
    ensures
        first_other(s, a, b, c) == first_other(s.take(k), a, b, c),
    decreases s.len() - k,
{
    if k < s.len() {
        assert(s.take(k + 1).drop_last() =~= s.take(k));
        lemma_first_other_prefix(s, a, b, c, k + 1);
    } else {
        assert(s.take(k) =~= s);
    }
}

/// The Terran openings named after barracks count what was built: a
/// two-barracks opening needs two barracks and no factory (and, with the
/// academy, an academy); one barracks with an academy and no factory is
/// Bio, and Bio is only that.
pub proof fn lemma_terran_barracks_openings(b: Seq<u16>)
    ensures
        (terran_opening(b) is TwoRax || terran_opening(b) is TwoRaxAcademy) ==> count_of(b, BARRACKS) >= 2
            && !b.contains(FACTORY),
        terran_opening(b) is TwoRaxAcademy ==> b.contains(ACADEMY),
        terran_opening(b) is TwoRax ==> !b.contains(ACADEMY),
        terran_opening(b) is Bio <==> (count_of(b, BARRACKS) == 1 && b.contains(ACADEMY) && !b.contains(FACTORY)),
{
    if b.contains(ACADEMY) {
        assert(b.len() > 0);
    }
}

/// What each Terran opening says was built: 1-1-1 has barracks, factory
/// and starport and no academy; mech has one barracks, a factory and a
/// starport; a factory expand has one barracks, a factory and a machine
/// shop; CC first has two command centers; a bunker rush places a bunker
/// among its first four buildings; an opening with buildings is never
/// `Unknown`.
pub proof fn lemma_terran_openings_built(b: Seq<u16>)
    ensures
        terran_opening(b) is OneOneOne ==> count_of(b, BARRACKS) >= 1 && b.contains(FACTORY) && b.contains(STARPORT)
            && !b.contains(ACADEMY),
        terran_opening(b) is Mech ==> count_of(b, BARRACKS) == 1 && b.contains(FACTORY) && b.contains(STARPORT),
        terran_opening(b) is FactoryExpand ==> count_of(b, BARRACKS) == 1 && b.contains(FACTORY) && b.contains(
            MACHINE_SHOP,
        ) && !b.contains(STARPORT),
        terran_opening(b) is OneRaxFe ==> count_of(b, BARRACKS) == 1 && b.contains(FACTORY),
        terran_opening(b) is CcFirst ==> count_of(b, COMMAND_CENTER) >= 2,
        terran_opening(b) is BunkerRush ==> b.contains(BUNKER) && first_index(b, BUNKER).unwrap() < 4,
        terran_opening(b) is BarracksFirst ==> first_other(b, SUPPLY_DEPOT, REFINERY, COMMAND_CENTER) == Some(
            BARRACKS,
        ),
        (terran_opening(b) is Unknown) <==> b.len() == 0,
{
}

/// What each Protoss opening says was built: two-gate openings have two
/// gateways (and, with the core, a cybernetics core); one-gate openings
/// have exactly one gateway and a core; a forge expand puts the forge
/// before the first gateway; nexus first has two nexuses; a DT rush has
/// templar archives and a gateway; an opening with buildings is never
/// `Unknown`.
pub proof fn lemma_protoss_openings_built(b: Seq<u16>)
    ensures
        (protoss_opening(b) is TwoGate || protoss_opening(b) is TwoGateCore) ==> count_of(b, GATEWAY) >= 2,
        protoss_opening(b) is TwoGateCore ==> b.contains(CYBERNETICS),
        protoss_opening(b) is TwoGate ==> !b.contains(CYBERNETICS),
        (protoss_opening(b) is OneGateStargate || protoss_opening(b) is OneGateRobo || protoss_opening(b) is OneGateCitadel
            || protoss_opening(b) is OneGateFe || protoss_opening(b) is OneGateCore) ==> count_of(b, GATEWAY) == 1
            && b.contains(CYBERNETICS),
        protoss_opening(b) is OneGateStargate ==> b.contains(STARGATE),
        protoss_opening(b) is OneGateRobo ==> b.contains(ROBOTICS),
        protoss_opening(b) is OneGateCitadel ==> b.contains(CITADEL),
        protoss_opening(b) is OneGateFe ==> count_of(b, NEXUS) >= 2,
        protoss_opening(b) is GatewayFirst ==> count_of(b, GATEWAY) == 1 && !b.contains(CYBERNETICS),
        (protoss_opening(b) is ForgeFe || protoss_opening(b) is ForgeFeCannon) ==> first_index(b, FORGE) is Some
            && first_index(b, GATEWAY) is Some && first_index(b, FORGE).unwrap() < first_index(b, GATEWAY).unwrap(),
        protoss_opening(b) is ForgeFeCannon ==> b.contains(CANNON),
        protoss_opening(b) is ForgeFeNoGateway ==> b.contains(FORGE) && count_of(b, GATEWAY) == 0,
        protoss_opening(b) is NexusFirst ==> count_of(b, NEXUS) >= 2,
        protoss_opening(b) is DtRush ==> b.contains(TEMPLAR_ARCHIVES) && count_of(b, GATEWAY) >= 1,
        (protoss_opening(b) is Unknown) <==> b.len() == 0,
{
}

/// What each Zerg opening says was built: hatch-first openings place a
/// hatchery before the pool, pool openings have a pool, and the pool timings
/// follow the supply at which the pool went down (4 plus the drones trained
/// before it): 4 pool at supply 5 or less, 9 pool at 6 to 9, 12 pool at 10
/// to 12, overpool above; an opening with buildings is never `Unknown`.
pub proof fn lemma_zerg_openings_built(b: Seq<u16>, entries: Seq<BuildOrderEntry>, player: u8)
    ensures
        ({
            let o = zerg_opening(b, entries, player);
            let supply = 4 + match pool_frame(entries, player) {
                Some(pf) => drones_before(entries, player, pf),
                None => 0,
            };
            let hatch_first = first_index(b, SPAWNING_POOL) is Some && first_index(b, HATCHERY) is Some
                && first_index(b, HATCHERY).unwrap() < first_index(b, SPAWNING_POOL).unwrap();
            let pool_only = first_index(b, SPAWNING_POOL) is Some && !hatch_first && !b.contains(SPIRE)
                && !b.contains(HYDRA_DEN) && !b.contains(LAIR);
            &&& (o is ThreeHatchBeforePool || o is TwelveHatch) <==> hatch_first
            &&& o is MutaBuild ==> b.contains(SPIRE) && !b.contains(HYDRA_DEN)
            &&& o is HydraBuild ==> b.contains(HYDRA_DEN)
            &&& o is LairTech ==> b.contains(LAIR)
            &&& o is FourPool <==> pool_only && supply <= 5
            &&& o is NinePool <==> pool_only && 5 < supply <= 9
            &&& o is TwelvePool <==> pool_only && 9 < supply <= 12
            &&& o is Overpool <==> pool_only && supply > 12
            &&& (o is Unknown) <==> b.len() == 0
        }),
{
    if first_index(b, SPAWNING_POOL) is Some {
        lemma_first_index_len(b, SPAWNING_POOL);
    }
}

proof fn lemma_first_index_len(s: Seq<u16>, x: u16)
    ensures
        first_index(s, x) is Some ==> s.len() > 0,
    decreases s.len(),
{
}

/// Terran opening of the buildings placed, in order.
pub fn classify_terran(b: &Vec<u16>) -> (r: Opening)
    ensures
        r == terran_opening(b@),
{
    if b.len() == 0 {
        return Opening::Unknown;
    }
    let rax = count_in(b, BARRACKS);
    let factory = index_in(b, FACTORY).is_some();
    let starport = index_in(b, STARPORT).is_some();
    let academy = index_in(b, ACADEMY).is_some();
    let cc = count_in(b, COMMAND_CENTER);
    let first = first_other_in(b, SUPPLY_DEPOT, REFINERY, COMMAND_CENTER);
    if rax >= 1 && factory && starport && !academy {
        return Opening::OneOneOne;
    }
    if rax >= 2 && !factory {
        if academy {
            return Opening::TwoRaxAcademy;
        }
        return Opening::TwoRax;
    }
    if rax >= 1 && academy && !factory {
        return Opening::Bio;
    }
    if factory && rax == 1 {
        if starport {
            return Opening::Mech;
        }
        if index_in(b, MACHINE_SHOP).is_some() {
            return Opening::FactoryExpand;
        }
        return Opening::OneRaxFe;
    }
    if cc >= 2 && first == Some(COMMAND_CENTER) {
        return Opening::CcFirst;
    }
    match index_in(b, BUNKER) {
        Some(pos) => {
            if pos < 4 {
                return Opening::BunkerRush;
            }
        },
        None => {},
    }
    if first == Some(BARRACKS) {
        return Opening::BarracksFirst;
    }
    Opening::UnknownTerran
}

/// Protoss opening of the buildings placed, in order.
pub fn classify_protoss(b: &Vec<u16>) -> (r: Opening)
    ensures
        r == protoss_opening(b@),
{
    if b.len() == 0 {
        return Opening::Unknown;
    }
    let gates = count_in(b, GATEWAY);
    let core = index_in(b, CYBERNETICS).is_some();
    let forge = index_in(b, FORGE).is_some();
    let nexus = count_in(b, NEXUS);
    let first = first_other_in(b, PYLON, ASSIMILATOR, NEXUS);
    if nexus >= 2 && first == Some(NEXUS) {
        return Opening::NexusFirst;
    }
    let forge_idx = index_in(b, FORGE);
    let gate_idx = index_in(b, GATEWAY);
    match (forge_idx, gate_idx) {
        (Some(fi), Some(gi)) => {
            if fi < gi {
                if index_in(b, CANNON).is_some() {
                    return Opening::ForgeFeCannon;
                }
                return Opening::ForgeFe;
            }
        },
        _ => {},
    }
    if forge && gates == 0 {
        return Opening::ForgeFeNoGateway;
    }
    if index_in(b, TEMPLAR_ARCHIVES).is_some() && gates >= 1 {
        return Opening::DtRush;
    }
    if gates >= 2 {
        if core {
            return Opening::TwoGateCore;
        }
        return Opening::TwoGate;
    }
    if gates == 1 && core {
        if index_in(b, STARGATE).is_some() {
            return Opening::OneGateStargate;
        }
        if index_in(b, ROBOTICS).is_some() {
            return Opening::OneGateRobo;
        }
        if index_in(b, CITADEL).is_some() {
            return Opening::OneGateCitadel;
        }
        if nexus >= 2 {
            return Opening::OneGateFe;
        }
        return Opening::OneGateCore;
    }
    if gates == 1 {
        return Opening::GatewayFirst;
    }
    Opening::UnknownProtoss
}

/// Frame of `player`'s first spawning pool `Build` in `entries`, if any.
fn find_pool_frame(entries: &[BuildOrderEntry], player: u8) -> (r: Option<u32>)
    ensures
        r == pool_frame(entries@, player),
{
    let mut i: usize = 0;
    while i < entries.len()
        invariant
            i <= entries@.len(),
            pool_frame(entries@.take(i as int), player) is None,
        decreases entries@.len() - i,
    {
        proof {
            assert(entries@.take(i as int + 1).drop_last() =~= entries@.take(i as int));
        }
        let e = entries[i];
        if e.player_id == player && e.action == BuildAction::Build(SPAWNING_POOL) {
            proof {
                lemma_pool_frame_prefix(entries@, player, i as int + 1);
            }
            return Some(e.frame);
        }
        i = i + 1;
    }
    proof {
        assert(entries@.take(entries@.len() as int) =~= entries@);
    }
    None
}

proof fn lemma_pool_frame_prefix(s: Seq<BuildOrderEntry>, player: u8, k: int)
    requires
        0 <= k <= s.len(),
        pool_frame(s.take(k), player) is Some,
    ensures
        pool_frame(s, player) == pool_frame(s.take(k), player),
    decreases s.len() - k,
{
    if k < s.len() {
        assert(s.take(k + 1).drop_last() =~= s.take(k));
        lemma_pool_frame_prefix(s, player, k + 1);
    } else {
        assert(s.take(k) =~= s);
    }
}

/// Number of drones `player` trained before frame `pf`.
fn count_drones_before(entries: &[BuildOrderEntry], player: u8, pf: u32) -> (r: usize)
    ensures
        r == drones_before(entries@, player, pf),
{
    let mut n: usize = 0;
    let mut i: usize = 0;
    while i < entries.len()
        invariant
            i <= entries@.len(),
            n == drones_before(entries@.take(i as int), player, pf),
            n <= i,
        decreases entries@.len() - i,
    {
        proof {
            assert(entries@.take(i as int + 1).drop_last() =~= entries@.take(i as int));
        }
        let e = entries[i];
        if e.player_id == player && e.frame < pf && e.action == BuildAction::Train(DRONE) {
            n = n + 1;
        }
        i = i + 1;
    }
    proof {
        assert(entries@.take(entries@.len() as int) =~= entries@);
    }
    n
}

/// Zerg opening of the buildings placed or morphed, in order, with the drone
/// count before the first pool taken from the player's whole build order.
pub fn classify_zerg(b: &Vec<u16>, entries: &[BuildOrderEntry], player: u8) -> (r: Opening)
    ensures
        r == zerg_opening(b@, entries@, player),
{
    if b.len() == 0 {
        return Opening::Unknown;
    }
    let pool_idx = index_in(b, SPAWNING_POOL);
    let hatch_idx = index_in(b, HATCHERY);
    let has_lair = index_in(b, LAIR).is_some();
    let has_hydra = index_in(b, HYDRA_DEN).is_some();
    let has_spire = index_in(b, SPIRE).is_some();
    let drones = match find_pool_frame(entries, player) {
        Some(pf) => count_drones_before(entries, player, pf),
        None => 0,
    };
    proof {
        lemma_first_index(b@, SPAWNING_POOL);
    }
    match (pool_idx, hatch_idx) {
        (Some(pi), Some(hi)) => {
            if hi < pi {
                let mut hatch_count: usize = 0;
                let mut k: usize = 0;
                while k < pi
                    invariant
                        pi < b@.len(),
                        k <= pi,
                        hatch_count == count_of(b@.take(k as int), HATCHERY),
                        hatch_count <= k,
                    decreases pi - k,
                {
                    proof {
                        assert(b@.take(k as int + 1).drop_last() =~= b@.take(k as int));
                    }
                    if b[k] == HATCHERY {
                        hatch_count = hatch_count + 1;
                    }
                    k = k + 1;
                }
                if hatch_count >= 2 {
                    return Opening::ThreeHatchBeforePool;
                }
                return Opening::TwelveHatch;
            }
        },
        _ => {},
    }
    if pool_idx.is_some() {
        if has_spire && !has_hydra {
            return Opening::MutaBuild;
        }
        if has_hydra {
            return Opening::HydraBuild;
        }
        if has_lair {
            return Opening::LairTech;
        }
        // The pool goes down at supply 4 + drones: at most 5, 9 or 12.
        if drones <= 1 {
            return Opening::FourPool;
        }
        if drones <= 5 {
            return Opening::NinePool;
        }
        if drones <= 8 {
            return Opening::TwelvePool;
        }
        return Opening::Overpool;
    }
    Opening::UnknownZerg
}

/// Opening of `player`, of race `race`, from the first `OPENING_ACTIONS`
/// of its build order actions.
pub fn classify_build(entries: &[BuildOrderEntry], player: u8, race: Race) -> (r: Opening)
    ensures
        r == opening_of(entries@, player, race),
{
    let actions = opening_actions(entries, player);
    match race {
        Race::Terran => classify_terran(&buildings(&actions, false)),
        Race::Zerg => classify_zerg(&buildings(&actions, true), entries, player),
        Race::Protoss => classify_protoss(&buildings(&actions, false)),
        Race::Unknown(_) => Opening::Unknown,
    }
}

} // verus!
