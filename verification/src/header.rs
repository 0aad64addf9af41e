//! The replay header (section 1): engine, frame count, game settings, map
//! and the active players, and the long player names of section 4.
use vstd::prelude::*;
use vstd::utf8::{decode_utf8, valid_utf8};
use crate::chk::{le_u16, le_u32, read_le_u16, read_le_u32};
use crate::error::ReplayError;
use crate::text::{decimal_chars, hex2_chars, push_decimal, push_hex2, push_str, chars_to_string, utf8_str};

verus! {

/// Size of the header section.
pub const HEADER_SIZE: usize = 0x279;
/// Offset of the 12 player slots.
pub const PLAYER_SLOTS_OFFSET: usize = 0xA1;
/// Size of one player slot.
pub const PLAYER_SLOT_SIZE: usize = 36;
/// Number of player slots.
pub const PLAYER_SLOT_COUNT: usize = 12;
/// Offset of the 8 player colours (`u32` each).
pub const PLAYER_COLORS_OFFSET: usize = 0x251;
/// Size of the player names section (section 4).
pub const PLAYER_NAMES_SIZE: usize = 0x300;
/// Size of one long player name.
pub const EXTENDED_NAME_SIZE: usize = 96;

/// Game engine.
#[derive(Debug, Clone, Copy, PartialEq, Eq, Structural)]
pub enum Engine {
    StarCraft,
    BroodWar,
}

/// Game speed setting.
#[derive(Debug, Clone, Copy, PartialEq, Eq, Structural)]
pub enum Speed {
    Slowest,
    Slower,
    Slow,
    Normal,
    Fast,
    Faster,
    Fastest,
    Unknown(u8),
}

/// Game type.
#[derive(Debug, Clone, Copy, PartialEq, Eq, Structural)]
pub enum GameType {
    NoneType,
    Custom,
    Melee,
    FreeForAll,
    OneOnOne,
    CaptureTheFlag,
    Greed,
    Slaughter,
    SuddenDeath,
    Ladder,
    UseMapSettings,
    TeamMelee,
    TeamFreeForAll,
    TeamCaptureTheFlag,
    TopVsBottom,
    IronManLadder,
    Unknown(u16),
}

/// A player's race.
#[derive(Debug, Clone, Copy, PartialEq, Eq, Structural)]
pub enum Race {
    Zerg,
    Terran,
    Protoss,
    Unknown(u8),
}

/// Matchup letter of a race.
pub open spec fn race_code_spec(r: Race) -> &'static str {
    match r {
        Race::Terran => "T",
        Race::Protoss => "P",
        Race::Zerg => "Z",
        Race::Unknown(_) => "?",
    }
}

impl Race {
    /// Short code used in matchup notation ("T", "P", "Z"; "?" when unknown).
    pub fn code(&self) -> (r: &'static str)
        ensures
            r == race_code_spec(*self),
    {
        match self {
            Race::Terran => "T",
            Race::Protoss => "P",
            Race::Zerg => "Z",
            Race::Unknown(_) => "?",
        }
    }
}

/// Player type.
#[derive(Debug, Clone, Copy, PartialEq, Eq, Structural)]
pub enum PlayerType {
    Inactive,
    Computer,
    Human,
    RescuePassive,
    ComputerControlled,
    Open,
    Neutral,
    Closed,
    Unknown(u8),
}

/// A human or computer player takes part in the game.
pub open spec fn is_active_spec(t: PlayerType) -> bool {
    t == PlayerType::Human || t == PlayerType::Computer
}

impl PlayerType {
    /// Whether the slot holds a player taking part: human or computer.
    pub fn is_active(&self) -> (r: bool)
        ensures
            r == is_active_spec(*self),
    {
        match self {
            PlayerType::Human | PlayerType::Computer => true,
            _ => false,
        }
    }
}

/// A player of the replay header.
#[derive(Debug, Clone)]
pub struct Player {
    pub slot_id: u16,
    pub player_id: u8,
    pub player_type: PlayerType,
    pub race: Race,
    pub team: u8,
    pub name: String,
    pub color: u32,
}

/// Parsed replay header.
#[derive(Debug, Clone)]
pub struct Header {
    pub engine: Engine,
    pub frame_count: u32,
    pub start_time: u32,
    pub game_title: String,
    pub map_width: u16,
    pub map_height: u16,
    pub game_speed: Speed,
    pub game_type: GameType,
    pub host_name: String,
    pub map_name: String,
    pub players: Vec<Player>,
}

impl Header {
    /// Duration in milliseconds (42 ms per frame).
    pub fn duration_ms(&self) -> (r: u64)
        ensures
            r == self.frame_count * 42,
    {
        self.frame_count as u64 * 42
    }
}

/// Speed setting of byte `v`.
pub open spec fn speed_of(v: u8) -> Speed {
    match v {
        0 => Speed::Slowest,
        1 => Speed::Slower,
        2 => Speed::Slow,
        3 => Speed::Normal,
        4 => Speed::Fast,
        5 => Speed::Faster,
        6 => Speed::Fastest,
        _ => Speed::Unknown(v),
    }
}

/// Game type of code `v`.
pub open spec fn game_type_of(v: u16) -> GameType {
    match v {
        0x00 => GameType::NoneType,
        0x01 => GameType::Custom,
        0x02 => GameType::Melee,
        0x03 => GameType::FreeForAll,
        0x04 => GameType::OneOnOne,
        0x05 => GameType::CaptureTheFlag,
        0x06 => GameType::Greed,
        0x07 => GameType::Slaughter,
        0x08 => GameType::SuddenDeath,
        0x09 => GameType::Ladder,
        0x0A => GameType::UseMapSettings,
        0x0B => GameType::TeamMelee,
        0x0C => GameType::TeamFreeForAll,
        0x0D => GameType::TeamCaptureTheFlag,
        0x0F => GameType::TopVsBottom,
        0x10 => GameType::IronManLadder,
        _ => GameType::Unknown(v),
    }
}

/// Race of byte `v`.
pub open spec fn race_of(v: u8) -> Race {
    match v {
        0x00 => Race::Zerg,
        0x01 => Race::Terran,
        0x02 => Race::Protoss,
        _ => Race::Unknown(v),
    }
}

/// Player type of byte `v`.
pub open spec fn player_type_of(v: u8) -> PlayerType {
    match v {
        0x00 => PlayerType::Inactive,
        0x01 => PlayerType::Computer,
        0x02 => PlayerType::Human,
        0x03 => PlayerType::RescuePassive,
        0x05 => PlayerType::ComputerControlled,
        0x06 => PlayerType::Open,
        0x07 => PlayerType::Neutral,
        0x08 => PlayerType::Closed,
        _ => PlayerType::Unknown(v),
    }
}

fn parse_speed(v: u8) -> (r: Speed)
    ensures
        r == speed_of(v),
{
    match v {
        0 => Speed::Slowest,
        1 => Speed::Slower,
        2 => Speed::Slow,
        3 => Speed::Normal,
        4 => Speed::Fast,
        5 => Speed::Faster,
        6 => Speed::Fastest,
        _ => Speed::Unknown(v),
    }
}

fn parse_game_type(v: u16) -> (r: GameType)
    ensures
        r == game_type_of(v),
{
    match v {
        0x00 => GameType::NoneType,
        0x01 => GameType::Custom,
        0x02 => GameType::Melee,
        0x03 => GameType::FreeForAll,
        0x04 => GameType::OneOnOne,
        0x05 => GameType::CaptureTheFlag,
        0x06 => GameType::Greed,
        0x07 => GameType::Slaughter,
        0x08 => GameType::SuddenDeath,
        0x09 => GameType::Ladder,
        0x0A => GameType::UseMapSettings,
        0x0B => GameType::TeamMelee,
        0x0C => GameType::TeamFreeForAll,
        0x0D => GameType::TeamCaptureTheFlag,
        0x0F => GameType::TopVsBottom,
        0x10 => GameType::IronManLadder,
        _ => GameType::Unknown(v),
    }
}

/// The race byte of a player record: 0 is Zerg, 1 Terran, 2 Protoss, and
/// any other byte is an unknown race that keeps the byte.
pub proof fn lemma_race_bytes(v: u8)
    ensures
        (race_of(v) == Race::Zerg) <==> v == 0,
        (race_of(v) == Race::Terran) <==> v == 1,
        (race_of(v) == Race::Protoss) <==> v == 2,
        race_of(v) matches Race::Unknown(b) ==> b == v && v > 2,
        v > 2 ==> race_of(v) == Race::Unknown(v),
{
}

/// The speed byte: 0 to 6 are the seven speeds from slowest to fastest, in
/// order, and any other byte is an unknown speed that keeps the byte.
pub proof fn lemma_speed_bytes(v: u8)
    ensures
        (speed_of(v) == Speed::Slowest) <==> v == 0,
        (speed_of(v) == Speed::Slower) <==> v == 1,
        (speed_of(v) == Speed::Slow) <==> v == 2,
        (speed_of(v) == Speed::Normal) <==> v == 3,
        (speed_of(v) == Speed::Fast) <==> v == 4,
        (speed_of(v) == Speed::Faster) <==> v == 5,
        (speed_of(v) == Speed::Fastest) <==> v == 6,
        (speed_of(v) is Unknown) <==> v > 6,
        speed_of(v) matches Speed::Unknown(b) ==> b == v,
{
}

/// The player type byte: 0 inactive, 1 computer, 2 human, 3 rescue
/// passive, 5 computer controlled, 6 open, 7 neutral, 8 closed; any other
/// byte (4 among them) is an unknown type that keeps the byte.
pub proof fn lemma_player_type_bytes(v: u8)
    ensures
        (player_type_of(v) == PlayerType::Inactive) <==> v == 0,
        (player_type_of(v) == PlayerType::Computer) <==> v == 1,
        (player_type_of(v) == PlayerType::Human) <==> v == 2,
        (player_type_of(v) == PlayerType::RescuePassive) <==> v == 3,
        (player_type_of(v) == PlayerType::ComputerControlled) <==> v == 5,
        (player_type_of(v) == PlayerType::Open) <==> v == 6,
        (player_type_of(v) == PlayerType::Neutral) <==> v == 7,
        (player_type_of(v) == PlayerType::Closed) <==> v == 8,
        (player_type_of(v) is Unknown) <==> (v == 4 || v > 8),
        player_type_of(v) matches PlayerType::Unknown(b) ==> b == v,
{
}

fn parse_race(v: u8) -> (r: Race)
    ensures
        r == race_of(v),
        v == 0 ==> r == Race::Zerg,
        v == 1 ==> r == Race::Terran,
        v == 2 ==> r == Race::Protoss,
{
    proof {
        lemma_race_bytes(v);
    }
    match v {
        0x00 => Race::Zerg,
        0x01 => Race::Terran,
        0x02 => Race::Protoss,
        _ => Race::Unknown(v),
    }
}

fn parse_player_type(v: u8) -> (r: PlayerType)
    ensures
        r == player_type_of(v),
{
    match v {
        0x00 => PlayerType::Inactive,
        0x01 => PlayerType::Computer,
        0x02 => PlayerType::Human,
        0x03 => PlayerType::RescuePassive,
        0x05 => PlayerType::ComputerControlled,
        0x06 => PlayerType::Open,
        0x07 => PlayerType::Neutral,
        0x08 => PlayerType::Closed,
        _ => PlayerType::Unknown(v),
    }
}

/// Characters of EUC-KR (code page 949) text, as `encoding_rs` decodes it.
pub uninterp spec fn euc_kr_text(bytes: Seq<u8>) -> Seq<char>;

/// Decodes bytes as EUC-KR through `encoding_rs::EUC_KR.decode`. Malformed
/// sequences become U+FFFD and a leading byte order mark selects its own
/// encoding, as that function does; the result is a function of the bytes
/// alone, named `euc_kr_text`, and nothing more of it is stated.
#[verifier::external_body]
fn euc_kr_decode(bytes: &[u8]) -> (r: String)
    ensures
        r@ == euc_kr_text(bytes@),
{
    let (decoded, _, _) = encoding_rs::EUC_KR.decode(bytes);
    decoded.into_owned()
}

/// Position of the first zero byte at or after `i`, or the length.
pub open spec fn nul_from(b: Seq<u8>, i: int) -> int
    decreases b.len() - i,
{
    if i >= b.len() {
        b.len() as int
    } else if b[i] == 0 {
        i
    } else {
        nul_from(b, i + 1)
    }
}

/// A byte kept in a name: not a control character, except tab and newline.
pub open spec fn kept_byte(x: u8) -> bool {
    x >= 0x20 || x == 0x09 || x == 0x0A
}

/// The text bytes of a fixed-size string field: up to the first zero byte,
/// with control characters other than tab and newline removed.
pub open spec fn text_bytes(b: Seq<u8>) -> Seq<u8> {
    b.take(nul_from(b, 0)).filter(|x: u8| kept_byte(x))
}

/// Text of a string field: UTF-8 when it is well-formed, else EUC-KR.
pub open spec fn decode_spec(b: Seq<u8>) -> Seq<char> {
    let raw = text_bytes(b);
    if raw.len() == 0 {
        Seq::empty()
    } else if valid_utf8(raw) {
        decode_utf8(raw)
    } else {
        euc_kr_text(raw)
    }
}

proof fn lemma_nul_from_bound(b: Seq<u8>, i: int)
    requires
        0 <= i <= b.len(),
    ensures
        i <= nul_from(b, i) <= b.len(),
    decreases b.len() - i,
{
    if i < b.len() && b[i] != 0 {
        lemma_nul_from_bound(b, i + 1);
    }
}

/// Decodes a zero-terminated string field: the bytes before the first zero,
/// without StarCraft's formatting control characters, read as UTF-8 when they
/// are well-formed and as EUC-KR (Korean names) otherwise.
pub fn decode_string(bytes: &[u8]) -> (r: String)
    ensures
        r@ == decode_spec(bytes@),
{
    let mut end: usize = 0;
    while end < bytes.len() && bytes[end] != 0
        invariant
            end <= bytes@.len(),
            nul_from(bytes@, 0) == nul_from(bytes@, end as int),
        decreases bytes@.len() - end,
    {
        end = end + 1;
    }
    let ghost cut = bytes@.take(end as int);
    let mut raw: Vec<u8> = Vec::new();
    let mut k: usize = 0;
    while k < end
        invariant
            end <= bytes@.len(),
            k <= end,
            cut == bytes@.take(end as int),
            raw@ == bytes@.take(k as int).filter(|x: u8| kept_byte(x)),
        decreases end - k,
    {
        let b = bytes[k];
        proof {
            reveal(Seq::filter);
            assert(bytes@.take(k as int + 1).drop_last() =~= bytes@.take(k as int));
        }
        if b >= 0x20 || b == 0x09 || b == 0x0A {
            raw.push(b);
        }
        k = k + 1;
    }
    proof {
        assert(nul_from(bytes@, end as int) == end);
    }
    if raw.len() == 0 {
        return String::new();
    }
    match utf8_str(raw.as_slice()) {
        Some(s) => s.to_owned(),
        None => euc_kr_decode(raw.as_slice()),
    }
}

/// Base offset of player slot `i`.
pub open spec fn slot_base(i: int) -> int {
    PLAYER_SLOTS_OFFSET + i * PLAYER_SLOT_SIZE
}

/// Slot `i` of the header holds an active (human or computer) player.
pub open spec fn slot_active(d: Seq<u8>, i: int) -> bool {
    is_active_spec(player_type_of(d[slot_base(i) + 8]))
}

/// The active slots among the first `n`, in order.
pub open spec fn active_slots(d: Seq<u8>, n: int) -> Seq<int>
    decreases n,
{
    if n <= 0 {
        Seq::empty()
    } else if slot_active(d, n - 1) {
        active_slots(d, n - 1).push(n - 1)
    } else {
        active_slots(d, n - 1)
    }
}

/// `p` is the player that slot `i` of header bytes `d` describes.
pub open spec fn player_from_slot(p: Player, d: Seq<u8>, i: int) -> bool {
    let base = slot_base(i);
    &&& p.slot_id == le_u16(d, base)
    &&& p.player_id == d[base + 4]
    &&& p.player_type == player_type_of(d[base + 8])
    &&& p.race == race_of(d[base + 9])
    &&& p.team == d[base + 10]
    &&& p.name@ == decode_spec(d.subrange(base + 11, base + 36))
    &&& p.color == (if i < 8 { le_u32(d, PLAYER_COLORS_OFFSET + i * 4) } else { 0 })
}

/// `h` is the header that the header bytes `d` describe.
pub open spec fn header_from(h: Header, d: Seq<u8>) -> bool {
    let slots = active_slots(d, PLAYER_SLOT_COUNT as int);
    &&& h.engine == (if d[0] == 0 { Engine::StarCraft } else { Engine::BroodWar })
    &&& h.frame_count == le_u32(d, 0x01)
    &&& h.start_time == le_u32(d, 0x08)
    &&& h.game_title@ == decode_spec(d.subrange(0x18int, 0x18int + 28))
    &&& h.map_width == le_u16(d, 0x34)
    &&& h.map_height == le_u16(d, 0x36)
    &&& h.game_speed == speed_of(d[0x3A])
    &&& h.game_type == game_type_of(le_u16(d, 0x3C) as u16)
    &&& h.host_name@ == decode_spec(d.subrange(0x48int, 0x48int + 24))
    &&& h.map_name@ == decode_spec(d.subrange(0x61int, 0x61int + 26))
    &&& h.players@.len() == slots.len()
    &&& forall|k: int| 0 <= k < slots.len() ==> player_from_slot(#[trigger] h.players@[k], d, slots[k])
}

/// Message for a header of `len` bytes, shorter than required.
pub open spec fn too_short_message(len: nat) -> Seq<char> {
    "header too short: "@ + decimal_chars(len) + " bytes (expected 633)"@
}

/// Message for an unknown engine byte.
pub open spec fn engine_message(v: u8) -> Seq<char> {
    "unknown engine byte: 0x"@ + hex2_chars(v)
}

/// Parses the header from the decompressed section 1: an error when it is
/// shorter than `HEADER_SIZE` or its engine byte is neither 0 nor 1.
pub fn parse_header(data: &[u8]) -> (r: Result<Header, ReplayError>)
    ensures
        data@.len() < HEADER_SIZE ==> (r matches Err(ReplayError::InvalidHeader(m)) && m@ == too_short_message(data@.len())),
        data@.len() >= HEADER_SIZE && data@[0] > 1 ==> (r matches Err(ReplayError::InvalidHeader(m)) && m@ == engine_message(data@[0])),
        data@.len() >= HEADER_SIZE && data@[0] <= 1 ==> (r matches Ok(h) && header_from(h, data@)),
{
    if data.len() < HEADER_SIZE {
        let mut msg: Vec<char> = Vec::new();
        push_str("header too short: ", &mut msg);
        push_decimal(data.len() as u64, &mut msg);
        push_str(" bytes (expected 633)", &mut msg);
        return Err(ReplayError::InvalidHeader(chars_to_string(&msg)));
    }
    let engine = match data[0] {
        0x00 => Engine::StarCraft,
        0x01 => Engine::BroodWar,
        v => {
            let mut msg: Vec<char> = Vec::new();
            push_str("unknown engine byte: 0x", &mut msg);
            push_hex2(v, &mut msg);
            return Err(ReplayError::InvalidHeader(chars_to_string(&msg)));
        },
    };
    let frame_count = read_le_u32(data, 0x01);
    let start_time = read_le_u32(data, 0x08);
    let game_title = decode_string(&data[0x18..0x18 + 28]);
    let map_width = read_le_u16(data, 0x34);
    let map_height = read_le_u16(data, 0x36);
    let game_speed = parse_speed(data[0x3A]);
    let game_type = parse_game_type(read_le_u16(data, 0x3C));
    let host_name = decode_string(&data[0x48..0x48 + 24]);
    let map_name = decode_string(&data[0x61..0x61 + 26]);
    let mut players: Vec<Player> = Vec::new();
    let mut i: usize = 0;
    while i < PLAYER_SLOT_COUNT
        invariant
            data@.len() >= HEADER_SIZE,
            i <= PLAYER_SLOT_COUNT,
            players@.len() == active_slots(data@, i as int).len(),
            forall|k: int|
                0 <= k < players@.len() ==> player_from_slot(#[trigger] players@[k], data@, active_slots(data@, i as int)[k]),
        decreases PLAYER_SLOT_COUNT - i,
    {
        let base = PLAYER_SLOTS_OFFSET + i * PLAYER_SLOT_SIZE;
        let player_type = parse_player_type(data[base + 8]);
        if !player_type.is_active() {
            i = i + 1;
            continue;
        }
        let slot_id = read_le_u16(data, base);
        let player_id = data[base + 4];
        let race = parse_race(data[base + 9]);
        let team = data[base + 10];
        let name = decode_string(&data[base + 11..base + 11 + 25]);
        let color = if i < 8 { read_le_u32(data, PLAYER_COLORS_OFFSET + i * 4) } else { 0 };
        let ghost before = players@;
        players.push(Player { slot_id, player_id, player_type, race, team, name, color });
        proof {
            assert forall|k: int|
                0 <= k < players@.len() implies player_from_slot(#[trigger] players@[k], data@, active_slots(data@, i as int + 1)[k]) by {
                if k < before.len() {
                    assert(players@[k] == before[k]);
                }
            }
        }
        i = i + 1;
    }
    Ok(Header {
        engine,
        frame_count,
        start_time,
        game_title,
        map_width,
        map_height,
        game_speed,
        game_type,
        host_name,
        map_name,
        players,
    })
}

/// The name a player takes from section 4: the long name of its slot, when
/// the section is complete, the slot is one of the 12 and that name is not empty.
pub open spec fn extended_name(p: Player, s4: Seq<u8>) -> Seq<char> {
    let slot = p.slot_id as int;
    if s4.len() >= PLAYER_NAMES_SIZE && slot < PLAYER_SLOT_COUNT && slot * 96 + 96 <= s4.len()
        && decode_spec(
        s4.subrange(slot * 96, slot * 96 + 96),
    ).len() > 0 {
        decode_spec(s4.subrange(slot * 96, slot * 96 + 96))
    } else {
        p.name@
    }
}

/// Replaces each player's 25-byte name with the long (96-byte) name of its
/// slot from section 4, where that name is not empty. A section shorter than
/// all the long names changes nothing; a slot whose long name would lie past
/// the end of the section keeps its name.
pub fn apply_extended_names(header: &mut Header, section4: &[u8])
    ensures
        final(header).engine == old(header).engine,
        final(header).frame_count == old(header).frame_count,
        final(header).start_time == old(header).start_time,
        final(header).game_title@ == old(header).game_title@,
        final(header).map_width == old(header).map_width,
        final(header).map_height == old(header).map_height,
        final(header).game_speed == old(header).game_speed,
        final(header).game_type == old(header).game_type,
        final(header).host_name@ == old(header).host_name@,
        final(header).map_name@ == old(header).map_name@,
        final(header).players@.len() == old(header).players@.len(),
        forall|k: int|
            0 <= k < final(header).players@.len() ==> {
                let a = #[trigger] final(header).players@[k];
                let b = old(header).players@[k];
                &&& a.slot_id == b.slot_id
                &&& a.player_id == b.player_id
                &&& a.player_type == b.player_type
                &&& a.race == b.race
                &&& a.team == b.team
                &&& a.color == b.color
                &&& a.name@ == extended_name(b, section4@)
            },
{
    if section4.len() < PLAYER_NAMES_SIZE {
        return;
    }
    let n = header.players.len();
    let ghost orig = header.players@;
    let mut i: usize = 0;
    while i < n
        invariant
            section4@.len() >= PLAYER_NAMES_SIZE,
            n == orig.len(),
            header.players@.len() == n,
            i <= n,
            header.engine == old(header).engine,
            header.frame_count == old(header).frame_count,
            header.start_time == old(header).start_time,
            header.game_title@ == old(header).game_title@,
            header.map_width == old(header).map_width,
            header.map_height == old(header).map_height,
            header.game_speed == old(header).game_speed,
            header.game_type == old(header).game_type,
            header.host_name@ == old(header).host_name@,
            header.map_name@ == old(header).map_name@,
            orig == old(header).players@,
            forall|k: int|
                0 <= k < n ==> {
                    let a = #[trigger] header.players@[k];
                    let b = orig[k];
                    &&& a.slot_id == b.slot_id
                    &&& a.player_id == b.player_id
                    &&& a.player_type == b.player_type
                    &&& a.race == b.race
                    &&& a.team == b.team
                    &&& a.color == b.color
                    &&& a.name@ == (if k < i { extended_name(b, section4@) } else { b.name@ })
                },
        decreases n - i,
    {
        let slot = header.players[i].slot_id as usize;
        if slot < PLAYER_SLOT_COUNT && slot * EXTENDED_NAME_SIZE + EXTENDED_NAME_SIZE <= section4.len() {
            let base = slot * EXTENDED_NAME_SIZE;
            let extended = decode_string(&section4[base..base + EXTENDED_NAME_SIZE]);
            if !extended.as_str().is_empty() {
                let ghost ps0 = header.players@;
                header.players[i].name = extended;
                proof {
                    assert forall|k: int| 0 <= k < n && k != i implies header.players@[k] == ps0[k] by {}
                }
            }
        }
        i = i + 1;
    }
}

} // verus!
