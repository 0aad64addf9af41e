use bw_engine::identity::{normalize_name, IdentityResolver};

#[test]
fn identity_test_normalize_plain() {
    let n = normalize_name("Flash");
    assert_eq!(n.normalized, "flash");
    assert!(n.clan_tag.is_none());
}

#[test]
fn test_normalize_bracket_tag() {
    let n = normalize_name("[KT]Flash");
    assert_eq!(n.normalized, "flash");
    assert_eq!(n.clan_tag.as_deref(), Some("KT"));
}

#[test]
fn test_normalize_paren_tag() {
    let n = normalize_name("(SKT)Rain");
    assert_eq!(n.normalized, "rain");
    assert_eq!(n.clan_tag.as_deref(), Some("SKT"));
}

#[test]
fn test_normalize_underscore_tag() {
    let n = normalize_name("SKT1_Rain");
    assert_eq!(n.normalized, "rain");
    assert_eq!(n.clan_tag.as_deref(), Some("SKT1"));
}

#[test]
fn test_normalize_no_false_tag() {
    let n = normalize_name("The_Great");
    assert!(n.clan_tag.is_none());
    assert_eq!(n.normalized, "the_great");
}

#[test]
fn identity_test_normalize_whitespace() {
    let n = normalize_name("  Flash  ");
    assert_eq!(n.normalized, "flash");
}

#[test]
fn test_normalize_special_chars() {
    let n = normalize_name("~Flash~");
    assert_eq!(n.normalized, "flash");
}

#[test]
fn test_resolver_groups_same_player() {
    let mut r = IdentityResolver::new();
    r.add("[KT]Flash", "T");
    r.add("Flash", "T");
    r.add("[KT]Flash", "T");
    let identities = r.resolve();
    assert_eq!(identities.len(), 1);
    assert_eq!(identities[0].canonical_name, "flash");
    assert_eq!(identities[0].game_count, 3);
    assert!(identities[0].aliases.contains(&"[KT]Flash".to_string()));
    assert!(identities[0].aliases.contains(&"Flash".to_string()));
    assert!(identities[0].clan_tags.contains(&"KT".to_string()));
}

#[test]
fn test_resolver_separates_different_players() {
    let mut r = IdentityResolver::new();
    r.add("Flash", "T");
    r.add("Jaedong", "Z");
    let identities = r.resolve();
    assert_eq!(identities.len(), 2);
}

#[test]
fn test_resolver_tracks_races() {
    let mut r = IdentityResolver::new();
    r.add("Flash", "T");
    r.add("Flash", "T");
    r.add("Flash", "P");
    let identities = r.resolve();
    assert_eq!(identities[0].race_count("T"), 2);
    assert_eq!(identities[0].race_count("P"), 1);
}

#[test]
fn test_lookup() {
    let mut r = IdentityResolver::new();
    r.add("[KT]Flash", "T");
    assert_eq!(r.lookup("Flash"), Some("flash"));
    assert_eq!(r.lookup("[KT]Flash"), Some("flash"));
    assert!(r.lookup("Jaedong").is_none());
}

#[test]
fn identity_aliases_sorted_without_repeats_and_group_order() {
    let mut r = IdentityResolver::new();
    r.add("Zeus", "P");
    r.add("[A]Flash", "T");
    r.add("Flash", "T");
    r.add("[A]Flash", "T");
    r.add("FLASH", "Z");
    let ids = r.resolve();
    assert_eq!(ids.len(), 2);
    // Groups come in order of first appearance.
    assert_eq!(ids[0].canonical_name, "zeus");
    assert_eq!(ids[1].canonical_name, "flash");
    assert_eq!(ids[1].aliases, vec!["FLASH".to_string(), "Flash".to_string(), "[A]Flash".to_string()]);
    assert_eq!(ids[1].clan_tags, vec!["A".to_string()]);
    assert_eq!(ids[1].game_count, 4);
    assert_eq!(ids[1].race_count("T"), 3);
    assert_eq!(ids[1].race_count("Z"), 1);
    assert_eq!(ids[1].race_count("P"), 0);
}

#[test]
fn identity_tag_edge_cases() {
    // A single uppercase letter before the underscore is no tag.
    let n = normalize_name("A_Bc");
    assert!(n.clan_tag.is_none());
    // Five letters are too many.
    let n = normalize_name("ABCDE_Bc");
    assert!(n.clan_tag.is_none());
    // Inner spaces stay, symbols at the ends go.
    let n = normalize_name("  ** Big Boss ** ");
    assert_eq!(n.normalized, "big boss");
    assert_eq!(n.original, "  ** Big Boss ** ");
    // An unclosed bracket is kept as text.
    let n = normalize_name("[KT Flash");
    assert!(n.clan_tag.is_none());
}
