//! Static game data: names, races, costs and supply of unit, tech and
//! upgrade types, by id.
use vstd::prelude::*;

verus! {

/// Name of unit type `id` ("Unknown Unit" for ids without one).
pub open spec fn unit_name_spec(id: u16) -> &'static str {
    match id {
        0 => "Marine",
        1 => "Ghost",
        2 => "Vulture",
        3 => "Goliath",
        5 => "Siege Tank",
        7 => "SCV",
        8 => "Wraith",
        9 => "Science Vessel",
        11 => "Dropship",
        12 => "Battlecruiser",
        13 => "Spider Mine",
        14 => "Nuclear Missile",
        15 => "Civilian",
        30 => "Siege Tank (Siege)",
        32 => "Firebat",
        34 => "Medic",
        58 => "Valkyrie",
        35 => "Larva",
        36 => "Egg",
        37 => "Zergling",
        38 => "Hydralisk",
        39 => "Ultralisk",
        40 => "Broodling",
        41 => "Drone",
        42 => "Overlord",
        43 => "Mutalisk",
        44 => "Guardian",
        45 => "Queen",
        46 => "Defiler",
        47 => "Scourge",
        50 => "Infested Terran",
        59 => "Cocoon",
        62 => "Devourer",
        97 => "Lurker Egg",
        103 => "Lurker",
        60 => "Corsair",
        61 => "Dark Templar",
        63 => "Dark Archon",
        64 => "Probe",
        65 => "Zealot",
        66 => "Dragoon",
        67 => "High Templar",
        68 => "Archon",
        69 => "Shuttle",
        70 => "Scout",
        71 => "Arbiter",
        72 => "Carrier",
        73 => "Interceptor",
        83 => "Reaver",
        84 => "Observer",
        85 => "Scarab",
        106 => "Command Center",
        107 => "Comsat Station",
        108 => "Nuclear Silo",
        109 => "Supply Depot",
        110 => "Refinery",
        111 => "Barracks",
        112 => "Academy",
        113 => "Factory",
        114 => "Starport",
        115 => "Control Tower",
        116 => "Science Facility",
        117 => "Covert Ops",
        118 => "Physics Lab",
        120 => "Machine Shop",
        122 => "Engineering Bay",
        123 => "Armory",
        124 => "Missile Turret",
        125 => "Bunker",
        130 => "Infested Command Center",
        131 => "Hatchery",
        132 => "Lair",
        133 => "Hive",
        134 => "Nydus Canal",
        135 => "Hydralisk Den",
        136 => "Defiler Mound",
        137 => "Greater Spire",
        138 => "Queen's Nest",
        139 => "Evolution Chamber",
        140 => "Ultralisk Cavern",
        141 => "Spire",
        142 => "Spawning Pool",
        143 => "Creep Colony",
        144 => "Spore Colony",
        146 => "Sunken Colony",
        149 => "Extractor",
        154 => "Nexus",
        155 => "Robotics Facility",
        156 => "Pylon",
        157 => "Assimilator",
        159 => "Observatory",
        160 => "Gateway",
        162 => "Photon Cannon",
        163 => "Citadel of Adun",
        164 => "Cybernetics Core",
        165 => "Templar Archives",
        166 => "Forge",
        167 => "Stargate",
        169 => "Fleet Beacon",
        170 => "Arbiter Tribunal",
        171 => "Robotics Support Bay",
        172 => "Shield Battery",
        10 => "Gui Montag",
        16 => "Sarah Kerrigan",
        19 => "Jim Raynor (Vulture)",
        20 => "Jim Raynor (Marine)",
        21 => "Tom Kazansky",
        22 => "Magellan",
        23 => "Edmund Duke (Tank)",
        25 => "Edmund Duke (Siege)",
        27 => "Arcturus Mengsk",
        28 => "Hyperion",
        29 => "Norad II",
        48 => "Torrasque",
        49 => "Matriarch",
        51 => "Infested Kerrigan",
        52 => "Unclean One",
        53 => "Hunter Killer",
        54 => "Devouring One",
        55 => "Kukulza (Mutalisk)",
        56 => "Kukulza (Guardian)",
        57 => "Yggdrasill",
        74 => "Dark Templar (Hero)",
        75 => "Zeratul",
        76 => "Tassadar/Zeratul",
        77 => "Fenix (Zealot)",
        78 => "Fenix (Dragoon)",
        79 => "Tassadar",
        80 => "Mojo",
        81 => "Warbringer",
        82 => "Gantrithor",
        86 => "Danimoth",
        87 => "Aldaris",
        88 => "Artanis",
        98 => "Raszagal",
        99 => "Samir Duran",
        100 => "Alexei Stukov",
        102 => "Gerard DuGalle",
        104 => "Infested Duran",
        _ => "Unknown Unit",
    }
}

/// The name of a unit type.
pub fn unit_name(id: u16) -> (r: &'static str)
    ensures
        r == unit_name_spec(id),
{
    match id {
        0 => "Marine",
        1 => "Ghost",
        2 => "Vulture",
        3 => "Goliath",
        5 => "Siege Tank",
        7 => "SCV",
        8 => "Wraith",
        9 => "Science Vessel",
        11 => "Dropship",
        12 => "Battlecruiser",
        13 => "Spider Mine",
        14 => "Nuclear Missile",
        15 => "Civilian",
        30 => "Siege Tank (Siege)",
        32 => "Firebat",
        34 => "Medic",
        58 => "Valkyrie",
        35 => "Larva",
        36 => "Egg",
        37 => "Zergling",
        38 => "Hydralisk",
        39 => "Ultralisk",
        40 => "Broodling",
        41 => "Drone",
        42 => "Overlord",
        43 => "Mutalisk",
        44 => "Guardian",
        45 => "Queen",
        46 => "Defiler",
        47 => "Scourge",
        50 => "Infested Terran",
        59 => "Cocoon",
        62 => "Devourer",
        97 => "Lurker Egg",
        103 => "Lurker",
        60 => "Corsair",
        61 => "Dark Templar",
        63 => "Dark Archon",
        64 => "Probe",
        65 => "Zealot",
        66 => "Dragoon",
        67 => "High Templar",
        68 => "Archon",
        69 => "Shuttle",
        70 => "Scout",
        71 => "Arbiter",
        72 => "Carrier",
        73 => "Interceptor",
        83 => "Reaver",
        84 => "Observer",
        85 => "Scarab",
        106 => "Command Center",
        107 => "Comsat Station",
        108 => "Nuclear Silo",
        109 => "Supply Depot",
        110 => "Refinery",
        111 => "Barracks",
        112 => "Academy",
        113 => "Factory",
        114 => "Starport",
        115 => "Control Tower",
        116 => "Science Facility",
        117 => "Covert Ops",
        118 => "Physics Lab",
        120 => "Machine Shop",
        122 => "Engineering Bay",
        123 => "Armory",
        124 => "Missile Turret",
        125 => "Bunker",
        130 => "Infested Command Center",
        131 => "Hatchery",
        132 => "Lair",
        133 => "Hive",
        134 => "Nydus Canal",
        135 => "Hydralisk Den",
        136 => "Defiler Mound",
        137 => "Greater Spire",
        138 => "Queen's Nest",
        139 => "Evolution Chamber",
        140 => "Ultralisk Cavern",
        141 => "Spire",
        142 => "Spawning Pool",
        143 => "Creep Colony",
        144 => "Spore Colony",
        146 => "Sunken Colony",
        149 => "Extractor",
        154 => "Nexus",
        155 => "Robotics Facility",
        156 => "Pylon",
        157 => "Assimilator",
        159 => "Observatory",
        160 => "Gateway",
        162 => "Photon Cannon",
        163 => "Citadel of Adun",
        164 => "Cybernetics Core",
        165 => "Templar Archives",
        166 => "Forge",
        167 => "Stargate",
        169 => "Fleet Beacon",
        170 => "Arbiter Tribunal",
        171 => "Robotics Support Bay",
        172 => "Shield Battery",
        10 => "Gui Montag",
        16 => "Sarah Kerrigan",
        19 => "Jim Raynor (Vulture)",
        20 => "Jim Raynor (Marine)",
        21 => "Tom Kazansky",
        22 => "Magellan",
        23 => "Edmund Duke (Tank)",
        25 => "Edmund Duke (Siege)",
        27 => "Arcturus Mengsk",
        28 => "Hyperion",
        29 => "Norad II",
        48 => "Torrasque",
        49 => "Matriarch",
        51 => "Infested Kerrigan",
        52 => "Unclean One",
        53 => "Hunter Killer",
        54 => "Devouring One",
        55 => "Kukulza (Mutalisk)",
        56 => "Kukulza (Guardian)",
        57 => "Yggdrasill",
        74 => "Dark Templar (Hero)",
        75 => "Zeratul",
        76 => "Tassadar/Zeratul",
        77 => "Fenix (Zealot)",
        78 => "Fenix (Dragoon)",
        79 => "Tassadar",
        80 => "Mojo",
        81 => "Warbringer",
        82 => "Gantrithor",
        86 => "Danimoth",
        87 => "Aldaris",
        88 => "Artanis",
        98 => "Raszagal",
        99 => "Samir Duran",
        100 => "Alexei Stukov",
        102 => "Gerard DuGalle",
        104 => "Infested Duran",
        _ => "Unknown Unit",
    }
}

/// Name of tech type `id` ("Unknown Tech" for ids without one).
pub open spec fn tech_name_spec(id: u8) -> &'static str {
    match id {
        0 => "Stim Packs",
        1 => "Lockdown",
        2 => "EMP Shockwave",
        3 => "Spider Mines",
        4 => "Scanner Sweep",
        5 => "Tank Siege Mode",
        6 => "Defensive Matrix",
        7 => "Irradiate",
        8 => "Yamato Gun",
        9 => "Cloaking Field",
        10 => "Personnel Cloaking",
        11 => "Burrowing",
        12 => "Infestation",
        13 => "Spawn Broodlings",
        14 => "Dark Swarm",
        15 => "Plague",
        16 => "Consume",
        17 => "Ensnare",
        18 => "Parasite",
        19 => "Psionic Storm",
        20 => "Hallucination",
        21 => "Recall",
        22 => "Stasis Field",
        23 => "Archon Warp",
        24 => "Restoration",
        25 => "Disruption Web",
        27 => "Mind Control",
        28 => "Dark Archon Meld",
        29 => "Feedback",
        30 => "Optical Flare",
        31 => "Maelstrom",
        32 => "Lurker Aspect",
        34 => "Healing",
        45 => "Nuclear Strike",
        _ => "Unknown Tech",
    }
}

/// The name of a tech type.
pub fn tech_name(id: u8) -> (r: &'static str)
    ensures
        r == tech_name_spec(id),
{
    match id {
        0 => "Stim Packs",
        1 => "Lockdown",
        2 => "EMP Shockwave",
        3 => "Spider Mines",
        4 => "Scanner Sweep",
        5 => "Tank Siege Mode",
        6 => "Defensive Matrix",
        7 => "Irradiate",
        8 => "Yamato Gun",
        9 => "Cloaking Field",
        10 => "Personnel Cloaking",
        11 => "Burrowing",
        12 => "Infestation",
        13 => "Spawn Broodlings",
        14 => "Dark Swarm",
        15 => "Plague",
        16 => "Consume",
        17 => "Ensnare",
        18 => "Parasite",
        19 => "Psionic Storm",
        20 => "Hallucination",
        21 => "Recall",
        22 => "Stasis Field",
        23 => "Archon Warp",
        24 => "Restoration",
        25 => "Disruption Web",
        27 => "Mind Control",
        28 => "Dark Archon Meld",
        29 => "Feedback",
        30 => "Optical Flare",
        31 => "Maelstrom",
        32 => "Lurker Aspect",
        34 => "Healing",
        45 => "Nuclear Strike",
        _ => "Unknown Tech",
    }
}

/// Name of upgrade type `id` ("Unknown Upgrade" for ids without one).
pub open spec fn upgrade_name_spec(id: u8) -> &'static str {
    match id {
        0 => "Infantry Armor",
        1 => "Vehicle Plating",
        2 => "Ship Plating",
        3 => "Zerg Carapace",
        4 => "Zerg Flyer Carapace",
        5 => "Protoss Ground Armor",
        6 => "Protoss Air Armor",
        7 => "Infantry Weapons",
        8 => "Vehicle Weapons",
        9 => "Ship Weapons",
        10 => "Zerg Melee Attacks",
        11 => "Zerg Missile Attacks",
        12 => "Zerg Flyer Attacks",
        13 => "Protoss Ground Weapons",
        14 => "Protoss Air Weapons",
        15 => "Protoss Plasma Shields",
        16 => "U-238 Shells",
        17 => "Ion Thrusters",
        19 => "Titan Reactor",
        20 => "Ocular Implants",
        21 => "Moebius Reactor",
        22 => "Apollo Reactor",
        23 => "Colossus Reactor",
        24 => "Ventral Sacs",
        25 => "Antennae",
        26 => "Pneumatized Carapace",
        27 => "Metabolic Boost",
        28 => "Adrenal Glands",
        29 => "Muscular Augments",
        30 => "Grooved Spines",
        31 => "Gamete Meiosis",
        32 => "Metasynaptic Node",
        33 => "Singularity Charge",
        34 => "Leg Enhancements",
        35 => "Scarab Damage",
        36 => "Reaver Capacity",
        37 => "Gravitic Drive",
        38 => "Sensor Array",
        39 => "Gravitic Boosters",
        40 => "Khaydarin Amulet",
        41 => "Apial Sensors",
        42 => "Gravitic Thrusters",
        43 => "Carrier Capacity",
        44 => "Khaydarin Core",
        47 => "Argus Jewel",
        49 => "Argus Talisman",
        51 => "Caduceus Reactor",
        52 => "Chitinous Plating",
        53 => "Anabolic Synthesis",
        54 => "Charon Boosters",
        _ => "Unknown Upgrade",
    }
}

/// The name of an upgrade type.
pub fn upgrade_name(id: u8) -> (r: &'static str)
    ensures
        r == upgrade_name_spec(id),
{
    match id {
        0 => "Infantry Armor",
        1 => "Vehicle Plating",
        2 => "Ship Plating",
        3 => "Zerg Carapace",
        4 => "Zerg Flyer Carapace",
        5 => "Protoss Ground Armor",
        6 => "Protoss Air Armor",
        7 => "Infantry Weapons",
        8 => "Vehicle Weapons",
        9 => "Ship Weapons",
        10 => "Zerg Melee Attacks",
        11 => "Zerg Missile Attacks",
        12 => "Zerg Flyer Attacks",
        13 => "Protoss Ground Weapons",
        14 => "Protoss Air Weapons",
        15 => "Protoss Plasma Shields",
        16 => "U-238 Shells",
        17 => "Ion Thrusters",
        19 => "Titan Reactor",
        20 => "Ocular Implants",
        21 => "Moebius Reactor",
        22 => "Apollo Reactor",
        23 => "Colossus Reactor",
        24 => "Ventral Sacs",
        25 => "Antennae",
        26 => "Pneumatized Carapace",
        27 => "Metabolic Boost",
        28 => "Adrenal Glands",
        29 => "Muscular Augments",
        30 => "Grooved Spines",
        31 => "Gamete Meiosis",
        32 => "Metasynaptic Node",
        33 => "Singularity Charge",
        34 => "Leg Enhancements",
        35 => "Scarab Damage",
        36 => "Reaver Capacity",
        37 => "Gravitic Drive",
        38 => "Sensor Array",
        39 => "Gravitic Boosters",
        40 => "Khaydarin Amulet",
        41 => "Apial Sensors",
        42 => "Gravitic Thrusters",
        43 => "Carrier Capacity",
        44 => "Khaydarin Core",
        47 => "Argus Jewel",
        49 => "Argus Talisman",
        51 => "Caduceus Reactor",
        52 => "Chitinous Plating",
        53 => "Anabolic Synthesis",
        54 => "Charon Boosters",
        _ => "Unknown Upgrade",
    }
}

/// Race of unit type `id`, by id range.
pub open spec fn unit_race_spec(id: u16) -> Option<&'static str> {
    if (0 <= id <= 15) || (30 <= id <= 34) || id == 58 || (106 <= id <= 125) {
        Some("Terran")
    } else if (35 <= id <= 57) || id == 59 || id == 62 || id == 97 || id == 103 || (130 <= id <= 146)
        || id == 149 {
        Some("Zerg")
    } else if (60 <= id <= 61) || (63 <= id <= 73) || (83 <= id <= 85) || (154 <= id <= 172) {
        Some("Protoss")
    } else {
        None
    }
}

/// The race ("Terran", "Zerg" or "Protoss") a unit type belongs to.
pub fn unit_race(id: u16) -> (r: Option<&'static str>)
    ensures
        r == unit_race_spec(id),
{
    match id {
        0..=15 | 30..=34 | 58 | 106..=125 => Some("Terran"),
        35..=57 | 59 | 62 | 97 | 103 | 130..=146 | 149 => Some("Zerg"),
        60..=61 | 63..=73 | 83..=85 | 154..=172 => Some("Protoss"),
        _ => None,
    }
}

/// Unit type `id` is a building.
pub open spec fn is_building_spec(id: u16) -> bool {
    (106 <= id <= 125) || (130 <= id <= 146) || id == 149 || (154 <= id <= 172)
}

/// Whether a unit type is a building.
pub fn is_building(id: u16) -> (r: bool)
    ensures
        r == is_building_spec(id),
{
    match id {
        106..=125 | 130..=146 | 149 | 154..=172 => true,
        _ => false,
    }
}

/// Cost of unit type `id`: (minerals, gas, supply). A zergling or scourge
/// counts half of its pair; unknown ids cost nothing.
pub open spec fn unit_cost_spec(id: u16) -> (u32, u32, u32) {
    match id {
        0 => (50u32, 0u32, 1u32),
        1 => (25u32, 75u32, 1u32),
        2 => (75u32, 0u32, 2u32),
        3 => (100u32, 50u32, 2u32),
        5 => (150u32, 100u32, 2u32),
        7 => (50u32, 0u32, 1u32),
        8 => (150u32, 100u32, 2u32),
        9 => (100u32, 225u32, 2u32),
        11 => (100u32, 100u32, 2u32),
        12 => (400u32, 300u32, 6u32),
        32 => (50u32, 25u32, 1u32),
        34 => (50u32, 25u32, 1u32),
        58 => (250u32, 125u32, 3u32),
        37 => (25u32, 0u32, 1u32),
        38 => (75u32, 25u32, 1u32),
        39 => (200u32, 200u32, 4u32),
        41 => (50u32, 0u32, 1u32),
        42 => (100u32, 0u32, 0u32),
        43 => (100u32, 100u32, 2u32),
        44 => (150u32, 200u32, 2u32),
        45 => (100u32, 100u32, 2u32),
        46 => (50u32, 150u32, 2u32),
        47 => (13u32, 38u32, 1u32),
        62 => (250u32, 150u32, 2u32),
        103 => (125u32, 125u32, 2u32),
        60 => (150u32, 100u32, 2u32),
        61 => (125u32, 100u32, 2u32),
        63 => (0u32, 0u32, 4u32),
        64 => (50u32, 0u32, 1u32),
        65 => (100u32, 0u32, 2u32),
        66 => (125u32, 50u32, 2u32),
        67 => (50u32, 150u32, 2u32),
        68 => (0u32, 0u32, 4u32),
        69 => (200u32, 0u32, 2u32),
        70 => (275u32, 125u32, 3u32),
        71 => (100u32, 350u32, 4u32),
        72 => (350u32, 250u32, 6u32),
        73 => (25u32, 0u32, 0u32),
        83 => (200u32, 100u32, 4u32),
        84 => (25u32, 75u32, 1u32),
        85 => (15u32, 0u32, 0u32),
        106 => (400u32, 0u32, 0u32),
        107 => (50u32, 50u32, 0u32),
        108 => (100u32, 100u32, 0u32),
        109 => (100u32, 0u32, 0u32),
        110 => (100u32, 0u32, 0u32),
        111 => (150u32, 0u32, 0u32),
        112 => (150u32, 0u32, 0u32),
        113 => (200u32, 100u32, 0u32),
        114 => (150u32, 100u32, 0u32),
        115 => (50u32, 50u32, 0u32),
        116 => (100u32, 150u32, 0u32),
        117 => (50u32, 50u32, 0u32),
        118 => (50u32, 50u32, 0u32),
        120 => (50u32, 50u32, 0u32),
        122 => (125u32, 0u32, 0u32),
        123 => (100u32, 50u32, 0u32),
        124 => (75u32, 0u32, 0u32),
        125 => (100u32, 0u32, 0u32),
        131 => (300u32, 0u32, 0u32),
        132 => (150u32, 100u32, 0u32),
        133 => (200u32, 150u32, 0u32),
        134 => (160u32, 0u32, 0u32),
        135 => (100u32, 50u32, 0u32),
        136 => (100u32, 100u32, 0u32),
        137 => (100u32, 150u32, 0u32),
        138 => (150u32, 100u32, 0u32),
        139 => (75u32, 0u32, 0u32),
        140 => (150u32, 200u32, 0u32),
        141 => (200u32, 150u32, 0u32),
        142 => (200u32, 0u32, 0u32),
        143 => (75u32, 0u32, 0u32),
        144 => (50u32, 0u32, 0u32),
        146 => (50u32, 0u32, 0u32),
        149 => (50u32, 0u32, 0u32),
        154 => (400u32, 0u32, 0u32),
        155 => (200u32, 200u32, 0u32),
        156 => (100u32, 0u32, 0u32),
        157 => (100u32, 0u32, 0u32),
        159 => (50u32, 100u32, 0u32),
        160 => (150u32, 0u32, 0u32),
        162 => (150u32, 0u32, 0u32),
        163 => (150u32, 100u32, 0u32),
        164 => (200u32, 0u32, 0u32),
        165 => (150u32, 200u32, 0u32),
        166 => (150u32, 0u32, 0u32),
        167 => (150u32, 150u32, 0u32),
        169 => (300u32, 200u32, 0u32),
        170 => (200u32, 150u32, 0u32),
        171 => (150u32, 100u32, 0u32),
        172 => (100u32, 0u32, 0u32),
        _ => (0u32, 0u32, 0u32),
    }
}

/// Cost of a unit or building: (minerals, gas, supply). Supply is 0 for buildings.
pub fn unit_cost(id: u16) -> (r: (u32, u32, u32))
    ensures
        r == unit_cost_spec(id),
{
    match id {
        0 => (50, 0, 1),
        1 => (25, 75, 1),
        2 => (75, 0, 2),
        3 => (100, 50, 2),
        5 => (150, 100, 2),
        7 => (50, 0, 1),
        8 => (150, 100, 2),
        9 => (100, 225, 2),
        11 => (100, 100, 2),
        12 => (400, 300, 6),
        32 => (50, 25, 1),
        34 => (50, 25, 1),
        58 => (250, 125, 3),
        37 => (25, 0, 1),
        38 => (75, 25, 1),
        39 => (200, 200, 4),
        41 => (50, 0, 1),
        42 => (100, 0, 0),
        43 => (100, 100, 2),
        44 => (150, 200, 2),
        45 => (100, 100, 2),
        46 => (50, 150, 2),
        47 => (13, 38, 1),
        62 => (250, 150, 2),
        103 => (125, 125, 2),
        60 => (150, 100, 2),
        61 => (125, 100, 2),
        63 => (0, 0, 4),
        64 => (50, 0, 1),
        65 => (100, 0, 2),
        66 => (125, 50, 2),
        67 => (50, 150, 2),
        68 => (0, 0, 4),
        69 => (200, 0, 2),
        70 => (275, 125, 3),
        71 => (100, 350, 4),
        72 => (350, 250, 6),
        73 => (25, 0, 0),
        83 => (200, 100, 4),
        84 => (25, 75, 1),
        85 => (15, 0, 0),
        106 => (400, 0, 0),
        107 => (50, 50, 0),
        108 => (100, 100, 0),
        109 => (100, 0, 0),
        110 => (100, 0, 0),
        111 => (150, 0, 0),
        112 => (150, 0, 0),
        113 => (200, 100, 0),
        114 => (150, 100, 0),
        115 => (50, 50, 0),
        116 => (100, 150, 0),
        117 => (50, 50, 0),
        118 => (50, 50, 0),
        120 => (50, 50, 0),
        122 => (125, 0, 0),
        123 => (100, 50, 0),
        124 => (75, 0, 0),
        125 => (100, 0, 0),
        131 => (300, 0, 0),
        132 => (150, 100, 0),
        133 => (200, 150, 0),
        134 => (160, 0, 0),
        135 => (100, 50, 0),
        136 => (100, 100, 0),
        137 => (100, 150, 0),
        138 => (150, 100, 0),
        139 => (75, 0, 0),
        140 => (150, 200, 0),
        141 => (200, 150, 0),
        142 => (200, 0, 0),
        143 => (75, 0, 0),
        144 => (50, 0, 0),
        146 => (50, 0, 0),
        149 => (50, 0, 0),
        154 => (400, 0, 0),
        155 => (200, 200, 0),
        156 => (100, 0, 0),
        157 => (100, 0, 0),
        159 => (50, 100, 0),
        160 => (150, 0, 0),
        162 => (150, 0, 0),
        163 => (150, 100, 0),
        164 => (200, 0, 0),
        165 => (150, 200, 0),
        166 => (150, 0, 0),
        167 => (150, 150, 0),
        169 => (300, 200, 0),
        170 => (200, 150, 0),
        171 => (150, 100, 0),
        172 => (100, 0, 0),
        _ => (0, 0, 0),
    }
}

/// Supply provided by unit type `id`.
pub open spec fn supply_provided_spec(id: u16) -> u32 {
    match id {
        106 => 10,
        109 => 8,
        131 => 2,
        132 => 2,
        133 => 2,
        42 => 8,
        154 => 9,
        156 => 8,
        _ => 0,
    }
}

/// Supply provided by a unit or building.
pub fn supply_provided(id: u16) -> (r: u32)
    ensures
        r == supply_provided_spec(id),
{
    match id {
        106 => 10,
        109 => 8,
        131 => 2,
        132 => 2,
        133 => 2,
        42 => 8,
        154 => 9,
        156 => 8,
        _ => 0,
    }
}

/// Cost of researching tech `id`: (minerals, gas).
pub open spec fn tech_cost_spec(id: u8) -> (u32, u32) {
    match id {
        0 => (100u32, 100u32),
        1 => (200u32, 200u32),
        2 => (200u32, 200u32),
        3 => (100u32, 100u32),
        5 => (150u32, 150u32),
        7 => (200u32, 200u32),
        8 => (100u32, 100u32),
        9 => (150u32, 150u32),
        10 => (100u32, 100u32),
        11 => (100u32, 100u32),
        13 => (100u32, 100u32),
        15 => (200u32, 100u32),
        16 => (100u32, 100u32),
        17 => (100u32, 100u32),
        19 => (200u32, 200u32),
        20 => (150u32, 150u32),
        21 => (150u32, 150u32),
        22 => (150u32, 100u32),
        24 => (100u32, 100u32),
        25 => (200u32, 200u32),
        27 => (200u32, 200u32),
        30 => (100u32, 100u32),
        31 => (100u32, 100u32),
        32 => (200u32, 200u32),
        _ => (0u32, 0u32),
    }
}

/// Cost of a tech research: (minerals, gas).
pub fn tech_cost(id: u8) -> (r: (u32, u32))
    ensures
        r == tech_cost_spec(id),
{
    match id {
        0 => (100, 100),
        1 => (200, 200),
        2 => (200, 200),
        3 => (100, 100),
        5 => (150, 150),
        7 => (200, 200),
        8 => (100, 100),
        9 => (150, 150),
        10 => (100, 100),
        11 => (100, 100),
        13 => (100, 100),
        15 => (200, 100),
        16 => (100, 100),
        17 => (100, 100),
        19 => (200, 200),
        20 => (150, 150),
        21 => (150, 150),
        22 => (150, 100),
        24 => (100, 100),
        25 => (200, 200),
        27 => (200, 200),
        30 => (100, 100),
        31 => (100, 100),
        32 => (200, 200),
        _ => (0, 0),
    }
}

/// Base (first level) cost of upgrade `id`: (minerals, gas).
pub open spec fn upgrade_cost_spec(id: u8) -> (u32, u32) {
    match id {
        0 | 7 => (100u32, 100u32),
        1 | 2 | 8 | 9 => (100u32, 100u32),
        3 | 10 | 11 => (100u32, 100u32),
        4 | 12 => (100u32, 100u32),
        5 | 6 | 13 | 14 => (100u32, 100u32),
        15 => (200u32, 200u32),
        16 => (150u32, 150u32),
        17 => (100u32, 100u32),
        24 => (200u32, 200u32),
        25 => (150u32, 150u32),
        26 => (150u32, 150u32),
        27 => (100u32, 100u32),
        28 => (200u32, 200u32),
        29 => (150u32, 150u32),
        30 => (150u32, 150u32),
        33 => (150u32, 50u32),
        34 => (150u32, 150u32),
        35 => (100u32, 50u32),
        36 => (200u32, 200u32),
        37 => (150u32, 150u32),
        38 => (100u32, 100u32),
        39 => (150u32, 150u32),
        40 => (150u32, 150u32),
        43 => (100u32, 100u32),
        52 => (150u32, 150u32),
        53 => (200u32, 200u32),
        54 => (100u32, 100u32),
        _ => (0u32, 0u32),
    }
}

/// Cost of an upgrade at level 1: (minerals, gas).
pub fn upgrade_cost(id: u8) -> (r: (u32, u32))
    ensures
        r == upgrade_cost_spec(id),
{
    match id {
        0 | 7 => (100, 100),
        1 | 2 | 8 | 9 => (100, 100),
        3 | 10 | 11 => (100, 100),
        4 | 12 => (100, 100),
        5 | 6 | 13 | 14 => (100, 100),
        15 => (200, 200),
        16 => (150, 150),
        17 => (100, 100),
        24 => (200, 200),
        25 => (150, 150),
        26 => (150, 150),
        27 => (100, 100),
        28 => (200, 200),
        29 => (150, 150),
        30 => (150, 150),
        33 => (150, 50),
        34 => (150, 150),
        35 => (100, 50),
        36 => (200, 200),
        37 => (150, 150),
        38 => (100, 100),
        39 => (150, 150),
        40 => (150, 150),
        43 => (100, 100),
        52 => (150, 150),
        53 => (200, 200),
        54 => (100, 100),
        _ => (0, 0),
    }
}

/// Buildings cost no supply.
pub proof fn lemma_buildings_cost_no_supply(id: u16)
    requires
        is_building_spec(id),
    ensures
        unit_cost_spec(id).2 == 0,
{
}

/// Every building belongs to a race.
pub proof fn lemma_buildings_have_race(id: u16)
    requires
        is_building_spec(id),
    ensures
        unit_race_spec(id) is Some,
{
}

} // verus!
