//! Game metadata derived from a replay: matchup, winner and normalised map name.
use vstd::prelude::*;
use crate::command::{Command, GameCommand};
use crate::header::{Header, Player, Race};
use crate::identity::{TrimKind, trim_spec, trim_start_spec, trim_chars, trim_start_chars, keep_until, lead_from};
use crate::text::{is_white_space, is_white, is_ascii_digit_char, is_ascii_letter, find_from, find_char, lemma_find_char, sub_chars, str_to_chars, chars_to_string};

verus! {

/// A matchup between two players, races in the order P < T < Z.
#[derive(Debug, Clone, PartialEq, Eq, Hash)]
pub struct Matchup {
    /// Canonical code: "TvZ", "PvT", "PvZ", "TvT", "PvP", "ZvZ".
    pub code: String,
    /// Both players play the same race.
    pub mirror: bool,
}

/// Detected game result.
#[derive(Debug, Clone, PartialEq, Eq)]
pub enum GameResult {
    /// A player won: the other left first.
    Winner { player_id: u8, player_name: String },
    /// No winner could be told.
    Unknown,
}

/// Matchup letter of a known race.
pub open spec fn race_letter(r: Race) -> Option<char> {
    match r {
        Race::Terran => Some('T'),
        Race::Protoss => Some('P'),
        Race::Zerg => Some('Z'),
        Race::Unknown(_) => None,
    }
}

fn race_letter_of(r: &Race) -> (c: Option<char>)
    ensures
        c == race_letter(*r),
{
    match r {
        Race::Terran => Some('T'),
        Race::Protoss => Some('P'),
        Race::Zerg => Some('Z'),
        Race::Unknown(_) => None,
    }
}

/// The matchup code and mirror flag of two races: `None` when a race is
/// unknown; else the two letters in order (P < T < Z) around a "v".
pub open spec fn matchup_spec(race1: Race, race2: Race) -> Option<(Seq<char>, bool)> {
    match (race_letter(race1), race_letter(race2)) {
        (Some(a), Some(b)) => Some(
            (if a <= b { seq![a, 'v', b] } else { seq![b, 'v', a] }, a == b),
        ),
        _ => None,
    }
}

/// The matchup does not depend on the order of the two players: "ZvT" is
/// reported as "TvZ".
pub proof fn lemma_matchup_symmetric(race1: Race, race2: Race)
    ensures
        matchup_spec(race1, race2) == matchup_spec(race2, race1),
{
    match (race_letter(race1), race_letter(race2)) {
        (Some(a), Some(b)) => {
            if a < b {
                assert(!(b <= a));
            } else if b < a {
                assert(!(a <= b));
            }
        },
        _ => {},
    }
}

/// The matchup of two races: `None` when a race is unknown; else the two
/// letters in order (P < T < Z) around a "v", and whether they are equal.
pub fn detect_matchup(race1: &Race, race2: &Race) -> (r: Option<Matchup>)
    ensures
        r is Some <==> matchup_spec(*race1, *race2) is Some,
        r matches Some(m) ==> matchup_spec(*race1, *race2) == Some((m.code@, m.mirror)),
{
    let a = match race_letter_of(race1) {
        Some(c) => c,
        None => return None,
    };
    let b = match race_letter_of(race2) {
        Some(c) => c,
        None => return None,
    };
    let (x, y) = if a <= b { (a, b) } else { (b, a) };
    let mut code: Vec<char> = Vec::new();
    code.push(x);
    code.push('v');
    code.push(y);
    proof {
        assert(code@ =~= seq![x, 'v', y]);
    }
    Some(Matchup { code: chars_to_string(&code), mirror: a == b })
}

/// Index of the first command of `cmds` that leaves the game at the
/// earliest frame among the leave commands, if any leaves.
pub open spec fn first_leave(cmds: Seq<GameCommand>) -> Option<int>
    decreases cmds.len(),
{
    if cmds.len() == 0 {
        None
    } else {
        let prev = first_leave(cmds.drop_last());
        let i = cmds.len() - 1;
        if cmds[i].command is LeaveGame {
            match prev {
                Some(j) => if cmds[i].frame < cmds[j].frame { Some(i) } else { Some(j) },
                None => Some(i),
            }
        } else {
            prev
        }
    }
}

/// Index of the first player whose id is not `id`.
pub open spec fn other_player(players: Seq<Player>, id: u8) -> Option<int>
    decreases players.len(),
{
    if players.len() == 0 {
        None
    } else {
        match other_player(players.drop_last(), id) {
            Some(j) => Some(j),
            None => if players.last().player_id != id { Some(players.len() - 1) } else { None },
        }
    }
}

proof fn lemma_first_leave(cmds: Seq<GameCommand>)
    ensures
        first_leave(cmds) matches Some(j) ==> 0 <= j < cmds.len() && cmds[j].command is LeaveGame,
    decreases cmds.len(),
{
    if cmds.len() > 0 {
        lemma_first_leave(cmds.drop_last());
    }
}

proof fn lemma_other_player(players: Seq<Player>, id: u8)
    ensures
        other_player(players, id) matches Some(j) ==> 0 <= j < players.len() && players[j].player_id != id,
    decreases players.len(),
{
    if players.len() > 0 {
        lemma_other_player(players.drop_last(), id);
    }
}

/// `r` is the result of a game between `players` with these commands: with
/// two players, the one who did not leave first wins; otherwise, or when
/// nobody left, the result is unknown.
pub open spec fn winner_result(players: Seq<Player>, commands: Seq<GameCommand>, r: GameResult) -> bool {
    if players.len() != 2 {
        r == GameResult::Unknown
    } else {
        match first_leave(commands) {
            None => r == GameResult::Unknown,
            Some(j) => match other_player(players, commands[j].player_id) {
                None => r == GameResult::Unknown,
                Some(w) => r matches GameResult::Winner { player_id, player_name } && player_id
                    == players[w].player_id && player_name@ == players[w].name@,
            },
        }
    }
}

/// The winner of a two-player game: the first leave command (earliest
/// frame, then earliest in the stream) names the loser, and the winner is
/// the first player with another id. Unknown for other player counts, when
/// nobody left, or when no other player exists.
pub fn detect_winner(header: &Header, commands: &[GameCommand]) -> (r: GameResult)
    ensures
        winner_result(header.players@, commands@, r),
{
    if header.players.len() != 2 {
        return GameResult::Unknown;
    }
    let mut best: Option<usize> = None;
    let mut i: usize = 0;
    while i < commands.len()
        invariant
            i <= commands@.len(),
            best matches Some(b) ==> first_leave(commands@.take(i as int)) == Some(b as int),
            best is None ==> first_leave(commands@.take(i as int)) is None,
        decreases commands@.len() - i,
    {
        proof {
            assert(commands@.take(i as int + 1).drop_last() =~= commands@.take(i as int));
            lemma_first_leave(commands@.take(i as int));
        }
        let c = &commands[i];
        match &c.command {
            Command::LeaveGame { .. } => {
                match best {
                    Some(b) => {
                        if c.frame < commands[b].frame {
                            best = Some(i);
                        }
                    },
                    None => {
                        best = Some(i);
                    },
                }
            },
            _ => {},
        }
        i = i + 1;
    }
    proof {
        assert(commands@.take(commands@.len() as int) =~= commands@);
        lemma_first_leave(commands@);
    }
    let loser = match best {
        Some(b) => commands[b].player_id,
        None => return GameResult::Unknown,
    };
    let ghost fl = first_leave(commands@);
    let mut k: usize = 0;
    while k < header.players.len()
        invariant
            k <= header.players@.len(),
            header.players@.len() == 2,
            fl == first_leave(commands@),
            fl matches Some(j) && loser == commands@[j].player_id,
            other_player(header.players@.take(k as int), loser) is None,
        decreases header.players@.len() - k,
    {
        proof {
            assert(header.players@.take(k as int + 1).drop_last() =~= header.players@.take(k as int));
        }
        if header.players[k].player_id != loser {
            proof {
                lemma_other_player_prefix(header.players@, loser, k as int + 1);
            }
            return GameResult::Winner {
                player_id: header.players[k].player_id,
                player_name: header.players[k].name.clone(),
            };
        }
        k = k + 1;
    }
    proof {
        assert(header.players@.take(header.players@.len() as int) =~= header.players@);
    }
    GameResult::Unknown
}

proof fn lemma_other_player_prefix(s: Seq<Player>, id: u8, k: int)
    requires
        0 <= k <= s.len(),
        other_player(s.take(k), id) is Some,
    ensures
        other_player(s, id) == other_player(s.take(k), id),
    decreases s.len() - k,
{
    if k < s.len() {
        assert(s.take(k + 1).drop_last() =~= s.take(k));
        lemma_other_player_prefix(s, id, k + 1);
    } else {
        assert(s.take(k) =~= s);
    }
}

/// A version suffix such as "1.3", "v2.1" or "1.3a": an optional "v" or
/// "V", then a digit, then digits and dots, with at most a trailing ASCII
/// letter. (Every accepted character is ASCII, so characters and bytes coincide.)
pub open spec fn is_version_spec(s: Seq<char>) -> bool {
    s.len() > 0 && version_digits(strip_v(s))
}

/// `s` without one leading "v" or "V".
pub open spec fn strip_v(s: Seq<char>) -> Seq<char> {
    if s.len() > 0 && (s[0] == 'v' || s[0] == 'V') { s.drop_first() } else { s }
}

/// A digit, then digits and dots, with at most a trailing ASCII letter.
pub open spec fn version_digits(t: Seq<char>) -> bool {
    &&& t.len() > 0
    &&& is_ascii_digit_char(t[0])
    &&& forall|i: int|
        0 <= i < t.len() ==> is_ascii_digit_char(#[trigger] t[i]) || t[i] == '.' || (is_ascii_letter(t[i])
            && i == t.len() - 1)
}

/// Whether `s` looks like a version suffix (see `is_version_spec`).
pub fn is_version_suffix(s: &Vec<char>) -> (r: bool)
    ensures
        r == is_version_spec(s@),
{
    if s.len() == 0 {
        return false;
    }
    let start: usize = if s[0] == 'v' || s[0] == 'V' { 1 } else { 0 };
    let ghost t = strip_v(s@);
    if start >= s.len() {
        return false;
    }
    proof {
        assert(t.len() == s@.len() - start);
        assert forall|i: int| 0 <= i < t.len() implies t[i] == s@[i + start] by {}
    }
    if !('0' <= s[start] && s[start] <= '9') {
        return false;
    }
    let mut i: usize = start;
    while i < s.len()
        invariant
            start <= i <= s@.len(),
            start < s@.len(),
            t.len() == s@.len() - start,
            t == strip_v(s@),
            is_ascii_digit_char(t[0]),
            forall|k: int| 0 <= k < t.len() ==> t[k] == s@[k + start],
            forall|k: int|
                0 <= k < i - start ==> is_ascii_digit_char(#[trigger] t[k]) || t[k] == '.' || (is_ascii_letter(t[k])
                    && k == t.len() - 1),
        decreases s@.len() - i,
    {
        let c = s[i];
        let ok = ('0' <= c && c <= '9') || c == '.' || ((('A' <= c && c <= 'Z') || ('a' <= c && c <= 'z')) && i == s.len() - 1);
        if !ok {
            proof {
                let k = i - start;
                assert(t[k] == c);
                assert(!(is_ascii_digit_char(t[k]) || t[k] == '.' || (is_ascii_letter(t[k]) && k == t.len() - 1)));
                assert(!version_digits(t));
            }
            return false;
        }
        i = i + 1;
    }
    true
}

/// Index just after the last character of `s` before `j` that is not white space.
pub open spec fn trim_end_spec(s: Seq<char>) -> Seq<char> {
    s.subrange(0, keep_until(s, TrimKind::Space, s.len() as int))
}

/// Index of the last `c` in `s` before `j`, if any.
pub open spec fn rfind_before(s: Seq<char>, c: char, j: int) -> Option<int>
    decreases j,
{
    if j <= 0 {
        None
    } else if s[j - 1] == c {
        Some(j - 1)
    } else {
        rfind_before(s, c, j - 1)
    }
}

/// `s` with each run of plain spaces reduced to one space.
pub open spec fn collapse_spaces(s: Seq<char>) -> Seq<char>
    decreases s.len(),
{
    if s.len() == 0 {
        s
    } else {
        let prev = collapse_spaces(s.drop_last());
        if s.len() >= 2 && s.last() == ' ' && s[s.len() - 2] == ' ' {
            prev
        } else {
            prev.push(s.last())
        }
    }
}

/// A player-count prefix "(N)" stripped: the rest, trimmed at the start.
pub open spec fn strip_count_prefix(s: Seq<char>) -> Seq<char> {
    if s.len() > 0 && s[0] == '(' {
        match find_from(s, ')', 0) {
            Some(end) => if forall|i: int| 1 <= i < end ==> is_ascii_digit_char(#[trigger] s[i]) {
                trim_start_spec(s.subrange(end + 1, s.len() as int))
            } else {
                s
            },
            None => s,
        }
    } else {
        s
    }
}

/// A trailing version suffix stripped (after the last space).
pub open spec fn strip_version(s: Seq<char>) -> Seq<char> {
    let t = trim_end_spec(s);
    match rfind_before(t, ' ', t.len() as int) {
        Some(sp) => if is_version_spec(t.subrange(sp + 1, t.len() as int)) { t.subrange(0, sp) } else { s },
        None => s,
    }
}

/// Normalised map name: trimmed, a "(N)" player-count prefix and a trailing
/// version suffix removed, runs of spaces collapsed, trimmed again.
pub open spec fn normalized_map_name(name: Seq<char>) -> Seq<char> {
    trim_spec(collapse_spaces(strip_version(strip_count_prefix(trim_spec(name, TrimKind::Space)))), TrimKind::Space)
}

/// Normalises a map name for matching across replays: "(4)Fighting Spirit
/// 1.3" becomes "Fighting Spirit".
pub fn normalize_map_name(name: &str) -> (r: String)
    ensures
        r@ == normalized_map_name(name@),
{
    let chars = str_to_chars(name);
    let mut s = trim_chars(&chars, TrimKind::Space);
    // Player-count prefix.
    if s.len() > 0 && s[0] == '(' {
        proof {
            lemma_find_char(s@, ')');
        }
        match find_char(&s, ')') {
            Some(end) => {
                let mut all_digits = true;
                let mut i: usize = 1;
                while i < end
                    invariant
                        1 <= i <= end,
                        end < s@.len(),
                        all_digits == (forall|k: int| 1 <= k < i ==> is_ascii_digit_char(#[trigger] s@[k])),
                    decreases end - i,
                {
                    if !('0' <= s[i] && s[i] <= '9') {
                        all_digits = false;
                    }
                    i = i + 1;
                }
                if all_digits {
                    s = trim_start_chars(&sub_chars(&s, end + 1, s.len()));
                }
            },
            None => {},
        }
    }
    // Version suffix after the last space.
    let ghost s1 = s@;
    let keep = {
        let mut j: usize = s.len();
        while j > 0 && is_white(s[j - 1])
            invariant
                j <= s@.len(),
                keep_until(s@, TrimKind::Space, s@.len() as int) == keep_until(s@, TrimKind::Space, j as int),
            decreases j,
        {
            j = j - 1;
        }
        j
    };
    let trimmed = sub_chars(&s, 0, keep);
    let mut sp: usize = trimmed.len();
    while sp > 0 && trimmed[sp - 1] != ' '
        invariant
            sp <= trimmed@.len(),
            rfind_before(trimmed@, ' ', trimmed@.len() as int) == rfind_before(trimmed@, ' ', sp as int),
        decreases sp,
    {
        sp = sp - 1;
    }
    if sp > 0 {
        let suffix = sub_chars(&trimmed, sp, trimmed.len());
        if is_version_suffix(&suffix) {
            s = sub_chars(&trimmed, 0, sp - 1);
        }
    }
    // Collapse runs of spaces.
    let ghost s2 = s@;
    let mut collapsed: Vec<char> = Vec::new();
    let mut i: usize = 0;
    while i < s.len()
        invariant
            i <= s@.len(),
            collapsed@ == collapse_spaces(s@.take(i as int)),
        decreases s@.len() - i,
    {
        proof {
            assert(s@.take(i as int + 1).drop_last() =~= s@.take(i as int));
        }
        if !(i >= 1 && s[i] == ' ' && s[i - 1] == ' ') {
            collapsed.push(s[i]);
        }
        i = i + 1;
    }
    proof {
        assert(s@.take(s@.len() as int) =~= s@);
    }
    let result = trim_chars(&collapsed, TrimKind::Space);
    chars_to_string(&result)
}

/// What a replay's header and commands tell of a game: its matchup (for two
/// players), normalised map name, result and player count.
#[derive(Debug, Clone)]
pub struct GameSummary {
    pub matchup: Option<Matchup>,
    pub map_name: String,
    pub map_name_raw: String,
    pub result: GameResult,
    pub is_1v1: bool,
    pub player_count: usize,
}

/// Summarises a game from its header and commands.
pub fn summarize_game(header: &Header, commands: &[GameCommand]) -> (r: GameSummary)
    ensures
        r.is_1v1 == (header.players@.len() == 2),
        r.player_count == header.players@.len(),
        r.map_name_raw@ == header.map_name@,
        r.map_name@ == normalized_map_name(header.map_name@),
        winner_result(header.players@, commands@, r.result),
        !r.is_1v1 ==> r.matchup is None,
        r.is_1v1 ==> (r.matchup is Some <==> matchup_spec(
            header.players@[0].race,
            header.players@[1].race,
        ) is Some),
        r.matchup matches Some(m) ==> matchup_spec(
            header.players@[0].race,
            header.players@[1].race,
        ) == Some((m.code@, m.mirror)),
{
    let is_1v1 = header.players.len() == 2;
    let matchup = if is_1v1 {
        detect_matchup(&header.players[0].race, &header.players[1].race)
    } else {
        None
    };
    let map_name = normalize_map_name(header.map_name.as_str());
    let result = detect_winner(header, commands);
    GameSummary {
        matchup,
        map_name,
        map_name_raw: header.map_name.clone(),
        result,
        is_1v1,
        player_count: header.players.len(),
    }
}

} // verus!
