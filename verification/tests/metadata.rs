use bw_engine::command::{Command, GameCommand};
use bw_engine::header::{Engine, GameType, Header, Player, PlayerType, Race, Speed};
use bw_engine::metadata::{
    detect_matchup, detect_winner, is_version_suffix, normalize_map_name, summarize_game,
    GameResult,
};

fn make_player(id: u8, name: &str, race: Race) -> Player {
    Player {
        slot_id: id as u16,
        player_id: id,
        player_type: PlayerType::Human,
        race,
        team: id,
        name: name.to_string(),
        color: 0,
    }
}

fn make_header(players: Vec<Player>, map_name: &str) -> Header {
    Header {
        engine: Engine::BroodWar,
        frame_count: 10000,
        start_time: 0,
        game_title: String::new(),
        map_width: 128,
        map_height: 128,
        game_speed: Speed::Fastest,
        game_type: GameType::Melee,
        host_name: String::new(),
        map_name: map_name.to_string(),
        players,
    }
}

#[test]
fn test_matchup_tvz() {
    let m = detect_matchup(&Race::Terran, &Race::Zerg).unwrap();
    assert_eq!(m.code, "TvZ");
    assert!(!m.mirror);
}

#[test]
fn test_matchup_zvt_normalizes() {
    let m = detect_matchup(&Race::Zerg, &Race::Terran).unwrap();
    assert_eq!(m.code, "TvZ");
}

#[test]
fn test_matchup_pvt() {
    let m = detect_matchup(&Race::Protoss, &Race::Terran).unwrap();
    assert_eq!(m.code, "PvT");
}

#[test]
fn test_matchup_pvz() {
    let m = detect_matchup(&Race::Protoss, &Race::Zerg).unwrap();
    assert_eq!(m.code, "PvZ");
}

#[test]
fn test_matchup_mirror() {
    let m = detect_matchup(&Race::Terran, &Race::Terran).unwrap();
    assert_eq!(m.code, "TvT");
    assert!(m.mirror);
}

#[test]
fn test_matchup_unknown_race() {
    assert!(detect_matchup(&Race::Unknown(5), &Race::Terran).is_none());
}

#[test]
fn metadata_test_normalize_plain() {
    assert_eq!(normalize_map_name("Fighting Spirit"), "Fighting Spirit");
}

#[test]
fn test_normalize_version_suffix() {
    assert_eq!(normalize_map_name("Fighting Spirit 1.3"), "Fighting Spirit");
}

#[test]
fn test_normalize_v_prefix_version() {
    assert_eq!(normalize_map_name("Circuit Breaker v2.1"), "Circuit Breaker");
}

#[test]
fn test_normalize_player_count_prefix() {
    assert_eq!(normalize_map_name("(4)Fighting Spirit"), "Fighting Spirit");
}

#[test]
fn test_normalize_both() {
    assert_eq!(normalize_map_name("(4)Fighting Spirit 1.3"), "Fighting Spirit");
}

#[test]
fn test_normalize_trailing_letter() {
    assert_eq!(normalize_map_name("Polypoid 1.3a"), "Polypoid");
}

#[test]
fn metadata_test_normalize_whitespace() {
    assert_eq!(normalize_map_name("  Polypoid  "), "Polypoid");
}

#[test]
fn test_normalize_no_false_positive() {
    assert_eq!(normalize_map_name("Destination SE"), "Destination SE");
}

#[test]
fn test_normalize_single_digit() {
    assert_eq!(normalize_map_name("Heartbreak Ridge 2"), "Heartbreak Ridge");
}

#[test]
fn test_winner_from_leave() {
    let header = make_header(
        vec![make_player(0, "Flash", Race::Terran), make_player(1, "Jaedong", Race::Zerg)],
        "Test",
    );
    let commands = vec![GameCommand {
        frame: 5000,
        player_id: 1,
        command: Command::LeaveGame { reason: 1 },
    }];
    let result = detect_winner(&header, &commands);
    assert_eq!(
        result,
        GameResult::Winner { player_id: 0, player_name: "Flash".to_string() }
    );
}

#[test]
fn test_winner_no_leave() {
    let header = make_header(
        vec![make_player(0, "Flash", Race::Terran), make_player(1, "Jaedong", Race::Zerg)],
        "Test",
    );
    let result = detect_winner(&header, &[]);
    assert_eq!(result, GameResult::Unknown);
}

#[test]
fn test_winner_first_leave_loses() {
    let header = make_header(
        vec![make_player(0, "Flash", Race::Terran), make_player(1, "Jaedong", Race::Zerg)],
        "Test",
    );
    let commands = vec![
        GameCommand { frame: 5000, player_id: 1, command: Command::LeaveGame { reason: 1 } },
        GameCommand { frame: 5010, player_id: 0, command: Command::LeaveGame { reason: 1 } },
    ];
    let result = detect_winner(&header, &commands);
    assert_eq!(
        result,
        GameResult::Winner { player_id: 0, player_name: "Flash".to_string() }
    );
}

#[test]
fn metadata_winner_needs_two_players() {
    let header = make_header(
        vec![
            make_player(0, "A", Race::Terran),
            make_player(1, "B", Race::Zerg),
            make_player(2, "C", Race::Protoss),
        ],
        "Test",
    );
    let commands = vec![GameCommand {
        frame: 10,
        player_id: 2,
        command: Command::LeaveGame { reason: 1 },
    }];
    assert_eq!(detect_winner(&header, &commands), GameResult::Unknown);
    // Other commands are not leaves.
    let header2 = make_header(
        vec![make_player(0, "A", Race::Terran), make_player(1, "B", Race::Zerg)],
        "Test",
    );
    let only_other = vec![GameCommand { frame: 1, player_id: 1, command: Command::Other { id: 9 } }];
    assert_eq!(detect_winner(&header2, &only_other), GameResult::Unknown);
}

#[test]
fn metadata_version_suffix_forms() {
    let v: Vec<char> = "1.3a".chars().collect();
    assert!(is_version_suffix(&v));
    let v: Vec<char> = "v2".chars().collect();
    assert!(is_version_suffix(&v));
    let v: Vec<char> = "SE".chars().collect();
    assert!(!is_version_suffix(&v));
    let v: Vec<char> = "".chars().collect();
    assert!(!is_version_suffix(&v));
    assert_eq!(normalize_map_name("(2)Lost  Temple"), "Lost Temple");
    assert_eq!(normalize_map_name("Python"), "Python");
    assert_eq!(detect_matchup(&Race::Zerg, &Race::Zerg).unwrap().code, "ZvZ");
    assert_eq!(detect_matchup(&Race::Zerg, &Race::Protoss).unwrap().code, "PvZ");
}

#[test]
fn metadata_summary_of_a_two_player_game() {
    let header = make_header(
        vec![make_player(0, "Flash", Race::Terran), make_player(1, "Jaedong", Race::Zerg)],
        "(4)Fighting Spirit 1.3",
    );
    let commands = vec![GameCommand {
        frame: 5000,
        player_id: 1,
        command: Command::LeaveGame { reason: 1 },
    }];
    let s = summarize_game(&header, &commands);
    assert_eq!(s.matchup.as_ref().unwrap().code, "TvZ");
    assert_eq!(s.map_name, "Fighting Spirit");
    assert_eq!(s.map_name_raw, "(4)Fighting Spirit 1.3");
    assert!(s.is_1v1);
    assert_eq!(s.player_count, 2);
    assert!(matches!(s.result, GameResult::Winner { player_id: 0, .. }));
    let solo = make_header(vec![make_player(0, "A", Race::Protoss)], "Map");
    let s = summarize_game(&solo, &[]);
    assert!(!s.is_1v1);
    assert!(s.matchup.is_none());
    assert_eq!(s.result, GameResult::Unknown);
}
