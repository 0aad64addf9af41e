//! Player identity across replays: name normalisation (clan tags, symbols,
//! spacing and case) and grouping of appearances under one canonical name.
use vstd::prelude::*;
use crate::text::{
    is_white_space, is_white, is_alphanumeric_char, char_is_alphanumeric, lowercase_text, lowercase,
    is_ascii_upper, is_ascii_digit_char, utf8_len, utf8_len_at_most, sub_chars, find_from, find_char,
    lemma_find_char, str_to_chars, chars_to_string,
};

verus! {

/// Which characters a trim removes.
#[derive(Debug, Clone, Copy, PartialEq, Eq, Structural)]
pub enum TrimKind {
    /// Unicode white space.
    Space,
    /// Anything but letters, digits and the plain space.
    Symbol,
}

/// Character `c` is removed by a trim of kind `kind`.
pub open spec fn trimmed_by(kind: TrimKind, c: char) -> bool {
    match kind {
        TrimKind::Space => is_white_space(c),
        TrimKind::Symbol => !is_alphanumeric_char(c) && c != ' ',
    }
}

/// Index of the first character at or after `i` that a trim keeps, or the length.
pub open spec fn lead_from(s: Seq<char>, kind: TrimKind, i: int) -> int
    decreases s.len() - i,
{
    if i >= s.len() {
        s.len() as int
    } else if !trimmed_by(kind, s[i]) {
        i
    } else {
        lead_from(s, kind, i + 1)
    }
}

/// End (exclusive) of the last character before `j` that a trim keeps, or 0.
pub open spec fn keep_until(s: Seq<char>, kind: TrimKind, j: int) -> int
    decreases j,
{
    if j <= 0 {
        0
    } else if !trimmed_by(kind, s[j - 1]) {
        j
    } else {
        keep_until(s, kind, j - 1)
    }
}

/// `s` without leading and trailing characters of kind `kind`.
pub open spec fn trim_spec(s: Seq<char>, kind: TrimKind) -> Seq<char> {
    let a = lead_from(s, kind, 0);
    let b = keep_until(s, kind, s.len() as int);
    if a < b { s.subrange(a, b) } else { Seq::empty() }
}

/// `s` without leading white space.
pub open spec fn trim_start_spec(s: Seq<char>) -> Seq<char> {
    s.subrange(lead_from(s, TrimKind::Space, 0), s.len() as int)
}

fn trims(kind: TrimKind, c: char) -> (r: bool)
    ensures
        r == trimmed_by(kind, c),
{
    match kind {
        TrimKind::Space => is_white(c),
        TrimKind::Symbol => !char_is_alphanumeric(c) && c != ' ',
    }
}

proof fn lemma_lead_bound(s: Seq<char>, kind: TrimKind, i: int)
    requires
        0 <= i <= s.len(),
    ensures
        i <= lead_from(s, kind, i) <= s.len(),
    decreases s.len() - i,
{
    if i < s.len() && trimmed_by(kind, s[i]) {
        lemma_lead_bound(s, kind, i + 1);
    }
}

proof fn lemma_keep_bound(s: Seq<char>, kind: TrimKind, j: int)
    requires
        0 <= j <= s.len(),
    ensures
        0 <= keep_until(s, kind, j) <= j,
    decreases j,
{
    if j > 0 && trimmed_by(kind, s[j - 1]) {
        lemma_keep_bound(s, kind, j - 1);
    }
}

/// Index of the first character that a trim of kind `kind` keeps.
fn lead_index(s: &Vec<char>, kind: TrimKind) -> (r: usize)
    ensures
        r == lead_from(s@, kind, 0),
        r <= s@.len(),
{
    let mut i: usize = 0;
    while i < s.len() && trims(kind, s[i])
        invariant
            i <= s@.len(),
            lead_from(s@, kind, 0) == lead_from(s@, kind, i as int),
        decreases s@.len() - i,
    {
        i = i + 1;
    }
    i
}

/// End of the last character that a trim of kind `kind` keeps.
fn keep_index(s: &Vec<char>, kind: TrimKind) -> (r: usize)
    ensures
        r == keep_until(s@, kind, s@.len() as int),
        r <= s@.len(),
{
    let mut j: usize = s.len();
    while j > 0 && trims(kind, s[j - 1])
        invariant
            j <= s@.len(),
            keep_until(s@, kind, s@.len() as int) == keep_until(s@, kind, j as int),
        decreases j,
    {
        j = j - 1;
    }
    j
}

/// `s` without leading and trailing characters of kind `kind`.
pub fn trim_chars(s: &Vec<char>, kind: TrimKind) -> (r: Vec<char>)
    ensures
        r@ == trim_spec(s@, kind),
{
    let a = lead_index(s, kind);
    let b = keep_index(s, kind);
    if a < b {
        sub_chars(s, a, b)
    } else {
        Vec::new()
    }
}

/// `s` without leading white space.
pub fn trim_start_chars(s: &Vec<char>) -> (r: Vec<char>)
    ensures
        r@ == trim_start_spec(s@),
{
    let a = lead_index(s, TrimKind::Space);
    sub_chars(s, a, s.len())
}

/// A clan tag in brackets, `[TAG]Name`: the tag and the rest, when both are non-empty.
pub open spec fn bracket_tag(s: Seq<char>) -> Option<(Seq<char>, Seq<char>)> {
    if s.len() > 0 && s[0] == '[' {
        match find_from(s, ']', 0) {
            Some(end) => {
                let tag = s.subrange(1, end);
                let rest = trim_start_spec(s.subrange(end + 1, s.len() as int));
                if tag.len() > 0 && rest.len() > 0 { Some((tag, rest)) } else { None }
            },
            None => None,
        }
    } else {
        None
    }
}

/// A clan tag in parentheses, `(TAG)Name`: at most 5 bytes, all letters or
/// digits, with a non-empty rest.
pub open spec fn paren_tag(s: Seq<char>) -> Option<(Seq<char>, Seq<char>)> {
    if s.len() > 0 && s[0] == '(' {
        match find_from(s, ')', 0) {
            Some(end) => {
                let tag = s.subrange(1, end);
                let rest = trim_start_spec(s.subrange(end + 1, s.len() as int));
                if utf8_len(tag) <= 5 && tag.len() > 0 && rest.len() > 0 && (forall|i: int|
                    0 <= i < tag.len() ==> is_alphanumeric_char(#[trigger] tag[i])) {
                    Some((tag, rest))
                } else {
                    None
                }
            },
            None => None,
        }
    } else {
        None
    }
}

/// A clan tag before the first underscore, `TAG_Name`: 2 to 4 bytes of
/// upper-case ASCII letters and digits, with a non-empty name after it.
pub open spec fn underscore_tag(s: Seq<char>) -> Option<(Seq<char>, Seq<char>)> {
    match find_from(s, '_', 0) {
        Some(us) => {
            let prefix = s.subrange(0, us);
            let suffix = s.subrange(us + 1, s.len() as int);
            if 2 <= utf8_len(prefix) <= 4 && (forall|i: int|
                0 <= i < prefix.len() ==> is_ascii_upper(#[trigger] prefix[i]) || is_ascii_digit_char(prefix[i]))
                && suffix.len() > 0 {
                Some((prefix, suffix))
            } else {
                None
            }
        },
        None => None,
    }
}

/// The clan tag of a (trimmed) name and the name without it: the bracket,
/// parenthesis and underscore patterns are tried in that order.
pub open spec fn clan_tag_split(s: Seq<char>) -> (Option<Seq<char>>, Seq<char>) {
    match bracket_tag(s) {
        Some((t, r)) => (Some(t), r),
        None => match paren_tag(s) {
            Some((t, r)) => (Some(t), r),
            None => match underscore_tag(s) {
                Some((t, r)) => (Some(t), r),
                None => (None, s),
            },
        },
    }
}

fn all_alphanumeric(s: &Vec<char>) -> (r: bool)
    ensures
        r == (forall|i: int| 0 <= i < s@.len() ==> is_alphanumeric_char(#[trigger] s@[i])),
{
    let mut i: usize = 0;
    while i < s.len()
        invariant
            i <= s@.len(),
            forall|k: int| 0 <= k < i ==> is_alphanumeric_char(#[trigger] s@[k]),
        decreases s@.len() - i,
    {
        if !char_is_alphanumeric(s[i]) {
            return false;
        }
        i = i + 1;
    }
    true
}

fn all_upper_or_digit(s: &Vec<char>) -> (r: bool)
    ensures
        r == (forall|i: int| 0 <= i < s@.len() ==> is_ascii_upper(#[trigger] s@[i]) || is_ascii_digit_char(s@[i])),
{
    let mut i: usize = 0;
    while i < s.len()
        invariant
            i <= s@.len(),
            forall|k: int| 0 <= k < i ==> is_ascii_upper(#[trigger] s@[k]) || is_ascii_digit_char(s@[k]),
        decreases s@.len() - i,
    {
        let c = s[i];
        if !(('A' <= c && c <= 'Z') || ('0' <= c && c <= '9')) {
            return false;
        }
        i = i + 1;
    }
    true
}

/// Splits a clan tag off a name (see `clan_tag_split`).
pub fn extract_clan_tag(s: &Vec<char>) -> (r: (Option<Vec<char>>, Vec<char>))
    ensures
        r.1@ == clan_tag_split(s@).1,
        r.0 is Some <==> clan_tag_split(s@).0 is Some,
        r.0 matches Some(t) ==> clan_tag_split(s@).0 == Some(t@),
{
    proof {
        lemma_find_char(s@, ']');
        lemma_find_char(s@, ')');
        lemma_find_char(s@, '_');
    }
    if s.len() > 0 && s[0] == '[' {
        match find_char(s, ']') {
            Some(end) => {
                let tag = sub_chars(s, 1, end);
                let rest = trim_start_chars(&sub_chars(s, end + 1, s.len()));
                if tag.len() > 0 && rest.len() > 0 {
                    return (Some(tag), rest);
                }
            },
            None => {},
        }
    }
    if s.len() > 0 && s[0] == '(' {
        match find_char(s, ')') {
            Some(end) => {
                let tag = sub_chars(s, 1, end);
                let rest = trim_start_chars(&sub_chars(s, end + 1, s.len()));
                if utf8_len_at_most(&tag, 5) && tag.len() > 0 && rest.len() > 0 && all_alphanumeric(&tag) {
                    return (Some(tag), rest);
                }
            },
            None => {},
        }
    }
    match find_char(s, '_') {
        Some(us) => {
            let prefix = sub_chars(s, 0, us);
            let suffix = sub_chars(s, us + 1, s.len());
            if !utf8_len_at_most(&prefix, 1) && utf8_len_at_most(&prefix, 4) && all_upper_or_digit(&prefix)
                && suffix.len() > 0 {
                return (Some(prefix), suffix);
            }
        },
        None => {},
    }
    let mut same: Vec<char> = Vec::new();
    let mut i: usize = 0;
    while i < s.len()
        invariant
            i <= s@.len(),
            same@ == s@.take(i as int),
        decreases s@.len() - i,
    {
        same.push(s[i]);
        i = i + 1;
    }
    proof {
        assert(s@.take(s@.len() as int) =~= s@);
    }
    (None, same)
}

/// The normalised form of a name before lower-casing: trimmed, clan tag
/// removed, then symbols and white space trimmed from both ends.
pub open spec fn cleaned_name(name: Seq<char>) -> Seq<char> {
    let trimmed = trim_spec(name, TrimKind::Space);
    trim_spec(trim_spec(clan_tag_split(trimmed).1, TrimKind::Symbol), TrimKind::Space)
}

/// A normalised player name.
#[derive(Debug, Clone)]
pub struct NormalizedPlayer {
    /// The name as it appeared.
    pub original: String,
    /// Clan tag stripped, symbols and spacing trimmed, lower-cased.
    pub normalized: String,
    /// The clan tag found, if any.
    pub clan_tag: Option<String>,
}

/// Normalised form of `name`.
pub open spec fn normalized_of(name: Seq<char>) -> Seq<char> {
    lowercase_text(cleaned_name(name))
}

/// Clan tag of `name`, if any.
pub open spec fn clan_tag_of(name: Seq<char>) -> Option<Seq<char>> {
    clan_tag_split(trim_spec(name, TrimKind::Space)).0
}

/// Normalises a player name: trims it, strips a clan tag (`[KT]Flash`,
/// `(SKT)Rain`, `SKT1_Rain`), trims symbols at both ends and lower-cases it.
pub fn normalize_name(name: &str) -> (r: NormalizedPlayer)
    ensures
        r.original@ == name@,
        r.normalized@ == normalized_of(name@),
        r.clan_tag is Some <==> clan_tag_of(name@) is Some,
        r.clan_tag matches Some(t) ==> clan_tag_of(name@) == Some(t@),
{
    let chars = str_to_chars(name);
    let trimmed = trim_chars(&chars, TrimKind::Space);
    let (tag, base) = extract_clan_tag(&trimmed);
    let cleaned = trim_chars(&trim_chars(&base, TrimKind::Symbol), TrimKind::Space);
    let cleaned_text = chars_to_string(&cleaned);
    let clan_tag = match tag {
        Some(t) => Some(chars_to_string(&t)),
        None => None,
    };
    NormalizedPlayer { original: name.to_owned(), normalized: lowercase(cleaned_text.as_str()), clan_tag }
}


/// `a` comes before `b` in the order of their characters from position `i`
/// on (the order of `String`s): at the first difference, or by being a prefix.
pub open spec fn lex_lt_from(a: Seq<char>, b: Seq<char>, i: int) -> bool
    decreases a.len() - i,
{
    if i >= a.len() {
        i < b.len()
    } else if i >= b.len() {
        false
    } else if a[i] != b[i] {
        a[i] < b[i]
    } else {
        lex_lt_from(a, b, i + 1)
    }
}

/// Text `a` sorts before text `b`.
pub open spec fn lex_lt(a: Seq<char>, b: Seq<char>) -> bool {
    lex_lt_from(a, b, 0)
}

proof fn lemma_lex_trans(a: Seq<char>, b: Seq<char>, c: Seq<char>, i: int)
    requires
        0 <= i,
        lex_lt_from(a, b, i),
        lex_lt_from(b, c, i),
    ensures
        lex_lt_from(a, c, i),
    decreases a.len() - i,
{
    if i < a.len() && i < b.len() && i < c.len() && a[i] == b[i] && b[i] == c[i] {
        lemma_lex_trans(a, b, c, i + 1);
    }
}

proof fn lemma_lex_irrefl(a: Seq<char>, i: int)
    requires
        0 <= i,
    ensures
        !lex_lt_from(a, a, i),
    decreases a.len() - i,
{
    if i < a.len() {
        lemma_lex_irrefl(a, i + 1);
    }
}

proof fn lemma_lex_total(a: Seq<char>, b: Seq<char>, i: int)
    requires
        0 <= i <= a.len(),
        i <= b.len(),
        a.take(i) == b.take(i),
        !lex_lt_from(a, b, i),
        !lex_lt_from(b, a, i),
    ensures
        a == b,
    decreases a.len() - i,
{
    if i < a.len() && i < b.len() {
        assert(a.take(i + 1) =~= a.take(i).push(a[i]));
        assert(b.take(i + 1) =~= b.take(i).push(b[i]));
        lemma_lex_total(a, b, i + 1);
    } else {
        assert(a =~= a.take(i));
        assert(b =~= b.take(i));
    }
}

/// Whether text `a` sorts before text `b`.
pub fn text_less(a: &String, b: &String) -> (r: bool)
    ensures
        r == lex_lt(a@, b@),
{
    let x = str_to_chars(a.as_str());
    let y = str_to_chars(b.as_str());
    let mut i: usize = 0;
    while i < x.len() && i < y.len() && x[i] == y[i]
        invariant
            i <= x@.len(),
            i <= y@.len(),
            lex_lt(x@, y@) == lex_lt_from(x@, y@, i as int),
        decreases x@.len() - i,
    {
        i = i + 1;
    }
    if i >= x.len() {
        i < y.len()
    } else if i >= y.len() {
        false
    } else {
        x[i] < y[i]
    }
}

/// Texts in strictly increasing order.
pub open spec fn sorted_texts(s: Seq<String>) -> bool {
    forall|i: int, j: int| 0 <= i < j < s.len() ==> lex_lt(s[i]@, s[j]@)
}

/// Text `t` is one of the texts of `s`.
pub open spec fn has_text(s: Seq<String>, t: Seq<char>) -> bool {
    exists|j: int| 0 <= j < s.len() && (#[trigger] s[j])@ == t
}

/// Inserts text `t` into a strictly increasing list, unless it is already there.
fn insert_text(list: &mut Vec<String>, t: String)
    requires
        sorted_texts(old(list)@),
    ensures
        sorted_texts(final(list)@),
        forall|u: Seq<char>| has_text(final(list)@, u) <==> (has_text(old(list)@, u) || u == t@),
{
    let mut i: usize = 0;
    while i < list.len()
        invariant
            i <= list@.len(),
            list@ == old(list)@,
            sorted_texts(list@),
            forall|k: int| 0 <= k < i ==> lex_lt(#[trigger] list@[k]@, t@),
        ensures
            i <= list@.len(),
            list@ == old(list)@,
            forall|k: int| 0 <= k < i ==> lex_lt(#[trigger] list@[k]@, t@),
            i < list@.len() ==> !lex_lt(list@[i as int]@, t@),
        decreases list@.len() - i,
    {
        if !text_less(&list[i], &t) {
            break;
        }
        i = i + 1;
    }
    if i < list.len() && list[i] == t {
        proof {
            assert forall|u: Seq<char>| has_text(list@, u) <==> (has_text(old(list)@, u) || u == t@) by {
                if u == t@ {
                    assert(list@[i as int]@ == u);
                }
            }
        }
        return;
    }
    let ghost old_l = list@;
    let ghost tv = t@;
    proof {
        if i < old_l.len() && !lex_lt(t@, old_l[i as int]@) {
            assert(old_l[i as int]@.take(0) =~= t@.take(0));
            lemma_lex_total(old_l[i as int]@, t@, 0);
        }
    }
    list.insert(i, t);
    proof {
        assert forall|a: int, b: int| 0 <= a < b < list@.len() implies lex_lt(list@[a]@, list@[b]@) by {
            if b < i {
            } else if a < i && b == i {
            } else if a < i {
                assert(list@[a] == old_l[a]);
                assert(list@[b] == old_l[b - 1]);
            } else if a == i {
                assert(list@[b] == old_l[b - 1]);
                assert(lex_lt(tv, old_l[i as int]@));
                if b - 1 > i {
                    assert(lex_lt(old_l[i as int]@, old_l[b - 1]@));
                    lemma_lex_trans(tv, old_l[i as int]@, old_l[b - 1]@, 0);
                }
            } else {
                assert(list@[a] == old_l[a - 1]);
                assert(list@[b] == old_l[b - 1]);
            }
        }
        assert forall|u: Seq<char>| has_text(list@, u) <==> (has_text(old_l, u) || u == tv) by {
            if has_text(old_l, u) {
                let k = choose|k: int| 0 <= k < old_l.len() && (#[trigger] old_l[k])@ == u;
                if k < i {
                    assert(list@[k]@ == u);
                } else {
                    assert(list@[k + 1]@ == u);
                }
            }
            if has_text(list@, u) {
                let k = choose|k: int| 0 <= k < list@.len() && (#[trigger] list@[k])@ == u;
                if k < i {
                    assert(old_l[k]@ == u);
                } else if k > i {
                    assert(old_l[k - 1]@ == u);
                }
            }
            if u == tv {
                assert(list@[i as int]@ == u);
            }
        }
        assert(old_l == old(list)@);
        assert(tv == t@);
        assert forall|u: Seq<char>| has_text(list@, u) <==> (has_text(old(list)@, u) || u == t@) by {
            assert(has_text(list@, u) <==> (has_text(old_l, u) || u == tv));
        }
    }
}


/// One appearance of a player in a replay.
#[derive(Debug, Clone)]
pub struct PlayerAppearance {
    /// Name as it appeared.
    pub name: String,
    /// Normalised name.
    pub normalized: String,
    /// Clan tag, if one was found.
    pub clan_tag: Option<String>,
    /// Race played.
    pub race: String,
}

/// A player identity grouping several appearances.
#[derive(Debug, Clone)]
pub struct PlayerIdentity {
    /// Canonical (normalised) name.
    pub canonical_name: String,
    /// Every name seen, sorted, without repeats.
    pub aliases: Vec<String>,
    /// Every clan tag seen, sorted, without repeats.
    pub clan_tags: Vec<String>,
    /// Games per race, in the order the races were first seen.
    pub races: Vec<(String, u32)>,
    /// Number of appearances.
    pub game_count: u32,
}

/// Groups player appearances by normalised name.
#[derive(Debug)]
pub struct IdentityResolver {
    /// Normalised name and its appearances, in order of first appearance.
    appearances: Vec<(String, Vec<PlayerAppearance>)>,
}

/// `a` records name `name` played as race `race`.
pub open spec fn appearance_of(a: PlayerAppearance, name: Seq<char>, race: Seq<char>) -> bool {
    &&& a.name@ == name
    &&& a.normalized@ == normalized_of(name)
    &&& (a.clan_tag is Some <==> clan_tag_of(name) is Some)
    &&& (a.clan_tag matches Some(t) ==> clan_tag_of(name) == Some(t@))
    &&& a.race@ == race
}

/// Appearance `a` carries clan tag `u`.
pub open spec fn tag_is(a: PlayerAppearance, u: Seq<char>) -> bool {
    match a.clan_tag {
        Some(t) => t@ == u,
        None => false,
    }
}

/// Index of the first group with key `key`, if any.
pub open spec fn key_index_from(keys: Seq<Seq<char>>, key: Seq<char>, i: int) -> Option<int>
    decreases keys.len() - i,
{
    if i >= keys.len() {
        None
    } else if keys[i] == key {
        Some(i)
    } else {
        key_index_from(keys, key, i + 1)
    }
}

/// Number of appearances in `apps` played as race `race`.
pub open spec fn race_games(apps: Seq<PlayerAppearance>, race: Seq<char>) -> int
    decreases apps.len(),
{
    if apps.len() == 0 {
        0
    } else {
        race_games(apps.drop_last(), race) + if apps.last().race@ == race { 1int } else { 0int }
    }
}

/// `id` is the identity resolved from the group with key `key` and appearances `apps`.
pub open spec fn identity_of(id: PlayerIdentity, key: Seq<char>, apps: Seq<PlayerAppearance>) -> bool {
    &&& id.canonical_name@ == key
    &&& sorted_texts(id.aliases@)
    &&& forall|u: Seq<char>|
        has_text(id.aliases@, u) <==> exists|k: int| 0 <= k < apps.len() && (#[trigger] apps[k]).name@ == u
    &&& sorted_texts(id.clan_tags@)
    &&& forall|u: Seq<char>|
        has_text(id.clan_tags@, u) <==> exists|k: int|
            0 <= k < apps.len() && tag_is(#[trigger] apps[k], u)
    &&& forall|i: int, j: int| 0 <= i < j < id.races@.len() ==> id.races@[i].0@ != id.races@[j].0@
    &&& forall|i: int| 0 <= i < id.races@.len() ==> #[trigger] id.races@[i].1 == race_games(apps, id.races@[i].0@)
    &&& forall|k: int|
        0 <= k < apps.len() ==> exists|i: int| 0 <= i < id.races@.len() && #[trigger] id.races@[i].0@ == (#[trigger] apps[k]).race@
    &&& id.game_count == apps.len() as u32
}

impl PlayerIdentity {
    /// The number of games played as `race`; zero for a race never seen.
    pub fn race_count(&self, race: &str) -> (r: u32)
        ensures
            (exists|i: int|
                0 <= i < self.races@.len() && #[trigger] self.races@[i].0@ == race@ && r
                    == self.races@[i].1) || (r == 0 && forall|i: int|
                0 <= i < self.races@.len() ==> #[trigger] self.races@[i].0@ != race@),
    {
        let key = race.to_owned();
        let mut i: usize = 0;
        while i < self.races.len()
            invariant
                i <= self.races@.len(),
                key@ == race@,
                forall|j: int| 0 <= j < i ==> #[trigger] self.races@[j].0@ != race@,
            decreases self.races@.len() - i,
        {
            if self.races[i].0 == key {
                assert(self.races@[i as int].0@ == race@);
                return self.races[i].1;
            }
            i += 1;
        }
        0
    }
}

impl IdentityResolver {
    /// The normalised names grouped so far, in order of first appearance.
    pub closed spec fn keys(&self) -> Seq<Seq<char>> {
        Seq::new(self.appearances@.len(), |i: int| self.appearances@[i].0@)
    }

    /// The appearances of group `i`.
    pub closed spec fn group(&self, i: int) -> Seq<PlayerAppearance> {
        self.appearances@[i].1@
    }

    /// The grouping the resolver keeps: no normalised name heads two groups,
    /// and every appearance in a group has that group's normalised name.
    pub open spec fn well_grouped(&self) -> bool {
        &&& self.keys().no_duplicates()
        &&& forall|i: int, k: int|
            0 <= i < self.keys().len() && 0 <= k < self.group(i).len() ==> (#[trigger] self.group(i)[k]).normalized@
                == self.keys()[i]
    }

    /// A resolver with no appearances.
    pub fn new() -> (r: IdentityResolver)
        ensures
            r.keys().len() == 0,
            r.well_grouped(),
    {
        IdentityResolver { appearances: Vec::new() }
    }

    /// Records that `name` played a game as `race`: the appearance joins the
    /// group of its normalised name, or starts a new group at the end.
    pub fn add(&mut self, name: &str, race: &str)
        ensures
            ({
                let key = normalized_of(name@);
                let old_keys = old(self).keys();
                match key_index_from(old_keys, key, 0) {
                    Some(k) => {
                        &&& final(self).keys() == old_keys
                        &&& forall|i: int| 0 <= i < old_keys.len() && i != k ==> #[trigger] final(self).group(i) == old(self).group(i)
                        &&& final(self).group(k).len() == old(self).group(k).len() + 1
                        &&& final(self).group(k).drop_last() == old(self).group(k)
                        &&& appearance_of(final(self).group(k).last(), name@, race@)
                    },
                    None => {
                        &&& final(self).keys() == old_keys.push(key)
                        &&& forall|i: int| 0 <= i < old_keys.len() ==> #[trigger] final(self).group(i) == old(self).group(i)
                        &&& final(self).group(old_keys.len() as int).len() == 1
                        &&& appearance_of(final(self).group(old_keys.len() as int)[0], name@, race@)
                    },
                }
            }),
            added(*old(self), *final(self), name@, race@),
            old(self).well_grouped() ==> final(self).well_grouped(),
    {
        let norm = normalize_name(name);
        let appearance = PlayerAppearance {
            name: name.to_owned(),
            normalized: norm.normalized.clone(),
            clan_tag: norm.clan_tag,
            race: race.to_owned(),
        };
        let ghost key = norm.normalized@;
        let ghost keys0 = self.keys();
        assert(appearance_of(appearance, name@, race@));
        let ghost groups0 = self.appearances@;
        let mut i: usize = 0;
        while i < self.appearances.len()
            invariant
                i <= self.appearances@.len(),
                self.appearances@ == groups0,
                groups0 == old(self).appearances@,
                keys0 == self.keys(),
                key == norm.normalized@,
                key == normalized_of(name@),
                appearance_of(appearance, name@, race@),
                key_index_from(keys0, key, 0) == key_index_from(keys0, key, i as int),
                forall|j: int| 0 <= j < i ==> keys0[j] != key,
            decreases self.appearances@.len() - i,
        {
            let found = self.appearances[i].0 == norm.normalized;
            if found {
                proof {
                    assert(keys0[i as int] == groups0[i as int].0@);
                    assert(keys0[i as int] == key);
                }
                let ghost app_v = appearance;
                self.appearances[i].1.push(appearance);
                proof {
                    assert(self.appearances@.len() == groups0.len());
                    assert(self.appearances@[i as int].0 == groups0[i as int].0);
                    assert(self.appearances@[i as int].1@ == groups0[i as int].1@.push(app_v));
                    assert(self.keys() =~= keys0);
                    assert(key_index_from(keys0, key, i as int) == Some(i as int));
                    assert(self.group(i as int).last() == app_v);
                    assert(appearance_of(app_v, name@, race@));
                    assert(self.group(i as int).drop_last() =~= old(self).group(i as int));
                    assert forall|j: int| 0 <= j < keys0.len() && j != i implies #[trigger] self.group(j) == old(self).group(j) by {
                        assert(self.appearances@[j] == groups0[j]);
                    }
                    if old(self).well_grouped() {
                        assert forall|g: int, k: int|
                            0 <= g < self.keys().len() && 0 <= k < self.group(g).len() implies (#[trigger] self.group(g)[k]).normalized@
                                == self.keys()[g] by {
                            if g != i {
                                assert(self.group(g) == old(self).group(g));
                            } else if k < old(self).group(g).len() {
                                assert(self.group(g)[k] == old(self).group(g)[k]);
                            }
                        }
                    }
                }
                return;
            }
            i = i + 1;
        }
        let mut group: Vec<PlayerAppearance> = Vec::new();
        group.push(appearance);
        self.appearances.push((norm.normalized, group));
        proof {
            assert(self.keys() =~= keys0.push(key));
            assert forall|j: int| 0 <= j < keys0.len() implies #[trigger] self.group(j) == old(self).group(j) by {
                assert(self.appearances@[j] == groups0[j]);
            }
            if old(self).well_grouped() {
                assert forall|a: int, b: int| 0 <= a < b < self.keys().len() implies self.keys()[a] != self.keys()[b] by {
                    if b == keys0.len() {
                        assert(keys0[a] != key);
                    } else {
                        assert(old(self).keys().no_duplicates());
                    }
                }
                assert forall|g: int, k: int|
                    0 <= g < self.keys().len() && 0 <= k < self.group(g).len() implies (#[trigger] self.group(g)[k]).normalized@
                        == self.keys()[g] by {
                    if g < keys0.len() {
                        assert(self.group(g) == old(self).group(g));
                    } else {
                        assert(self.group(g) == group@);
                    }
                }
            }
        }
    }

    /// One identity per group, in order of first appearance: its normalised
    /// name, the names and clan tags seen (sorted, without repeats), games per
    /// race and the number of appearances.
    pub fn resolve(&self) -> (r: Vec<PlayerIdentity>)
        requires
            forall|i: int| 0 <= i < self.keys().len() ==> #[trigger] self.group(i).len() <= u32::MAX,
        ensures
            r@.len() == self.keys().len(),
            forall|i: int| 0 <= i < r@.len() ==> identity_of(#[trigger] r@[i], self.keys()[i], self.group(i)),
    {
        let mut out: Vec<PlayerIdentity> = Vec::new();
        let mut g: usize = 0;
        while g < self.appearances.len()
            invariant
                g <= self.appearances@.len(),
                forall|i: int| 0 <= i < self.keys().len() ==> #[trigger] self.group(i).len() <= u32::MAX,
                out@.len() == g,
                forall|i: int| 0 <= i < g ==> identity_of(#[trigger] out@[i], self.keys()[i], self.group(i)),
            decreases self.appearances@.len() - g,
        {
            proof {
                assert(self.group(g as int).len() <= u32::MAX);
            }
            let id = resolve_group(&self.appearances[g].0, &self.appearances[g].1);
            proof {
                assert(self.group(g as int) == self.appearances@[g as int].1@);
                assert(self.keys()[g as int] == self.appearances@[g as int].0@);
            }
            out.push(id);
            g = g + 1;
        }
        out
    }

    /// The canonical name of `name`: its normalised form, when a group has it.
    pub fn lookup(&self, name: &str) -> (r: Option<&str>)
        ensures
            r is Some <==> self.keys().contains(normalized_of(name@)),
            r matches Some(k) ==> k@ == normalized_of(name@),
    {
        let norm = normalize_name(name);
        let mut i: usize = 0;
        while i < self.appearances.len()
            invariant
                i <= self.appearances@.len(),
                norm.normalized@ == normalized_of(name@),
                forall|j: int| 0 <= j < i ==> self.keys()[j] != norm.normalized@,
            decreases self.appearances@.len() - i,
        {
            if self.appearances[i].0 == norm.normalized {
                proof {
                    assert(self.keys()[i as int] == norm.normalized@);
                }
                return Some(self.appearances[i].0.as_str());
            }
            i = i + 1;
        }
        proof {
            if self.keys().contains(normalized_of(name@)) {
                let j = choose|j: int| 0 <= j < self.keys().len() && self.keys()[j] == normalized_of(name@);
                assert(self.keys()[j] != norm.normalized@);
            }
        }
        None
    }
}

/// The identity of one group of appearances.
fn resolve_group(key: &String, apps: &Vec<PlayerAppearance>) -> (id: PlayerIdentity)
    requires
        apps@.len() <= u32::MAX,
    ensures
        identity_of(id, key@, apps@),
{
    let mut aliases: Vec<String> = Vec::new();
    let mut clan_tags: Vec<String> = Vec::new();
    let mut races: Vec<(String, u32)> = Vec::new();
    let mut k: usize = 0;
    while k < apps.len()
        invariant
            k <= apps@.len(),
            apps@.len() <= u32::MAX,
            sorted_texts(aliases@),
            forall|u: Seq<char>|
                has_text(aliases@, u) <==> exists|m: int| 0 <= m < k && (#[trigger] apps@[m]).name@ == u,
            sorted_texts(clan_tags@),
            forall|u: Seq<char>|
                has_text(clan_tags@, u) <==> exists|m: int|
                    0 <= m < k && tag_is(#[trigger] apps@[m], u),
            forall|i: int, j: int| 0 <= i < j < races@.len() ==> races@[i].0@ != races@[j].0@,
            forall|i: int| 0 <= i < races@.len() ==> #[trigger] races@[i].1 == race_games(apps@.take(k as int), races@[i].0@),
            forall|m: int|
                0 <= m < k ==> exists|i: int| 0 <= i < races@.len() && #[trigger] races@[i].0@ == (#[trigger] apps@[m]).race@,
        decreases apps@.len() - k,
    {
        let a = &apps[k];
        let ghost al0 = aliases@;
        insert_text(&mut aliases, a.name.clone());
        proof {
            assert forall|u: Seq<char>|
                has_text(aliases@, u) <==> exists|m: int| 0 <= m < k + 1 && (#[trigger] apps@[m]).name@ == u by {
                if u == a.name@ {
                    assert(apps@[k as int].name@ == u);
                }
                if exists|m: int| 0 <= m < k + 1 && (#[trigger] apps@[m]).name@ == u {
                    let m = choose|m: int| 0 <= m < k + 1 && (#[trigger] apps@[m]).name@ == u;
                    if m < k {
                        assert(has_text(al0, u));
                    }
                }
            }
        }
        let ghost ct0 = clan_tags@;
        match &a.clan_tag {
            Some(t) => {
                insert_text(&mut clan_tags, t.clone());
            },
            None => {},
        }
        proof {
            assert forall|u: Seq<char>|
                has_text(clan_tags@, u) <==> exists|m: int|
                    0 <= m < k + 1 && tag_is(#[trigger] apps@[m], u) by {
                if exists|m: int| 0 <= m < k + 1 && tag_is(#[trigger] apps@[m], u) {
                    let m = choose|m: int| 0 <= m < k + 1 && tag_is(#[trigger] apps@[m], u);
                    if m < k {
                        assert(has_text(ct0, u));
                    }
                }
                if tag_is(*a, u) {
                    assert(tag_is(apps@[k as int], u));
                }
            }
        }
        let ghost rc0 = races@;
        proof {
            assert(apps@.take(k as int + 1).drop_last() =~= apps@.take(k as int));
        }
        let mut r: usize = 0;
        while r < races.len()
            invariant
                r <= races@.len(),
                races@ == rc0,
                forall|j: int| 0 <= j < r ==> races@[j].0@ != a.race@,
            ensures
                r <= races@.len(),
                races@ == rc0,
                forall|j: int| 0 <= j < r ==> races@[j].0@ != a.race@,
                r < races@.len() ==> races@[r as int].0@ == a.race@,
            decreases races@.len() - r,
        {
            if races[r].0 == a.race {
                break;
            }
            r = r + 1;
        }
        if r < races.len() {
            proof {
                assert(races@[r as int].0@ == a.race@);
                assert(races@[r as int].1 == race_games(apps@.take(k as int), a.race@));
                assert(race_games(apps@.take(k as int), a.race@) <= k) by {
                    lemma_race_games_bound(apps@.take(k as int), a.race@);
                }
            }
            let name = races[r].0.clone();
            let count = races[r].1 + 1;
            races.set(r, (name, count));
        } else {
            races.push((a.race.clone(), 1));
            proof {
                assert forall|m: int| 0 <= m < k implies (#[trigger] apps@.take(k as int)[m]).race@ != a.race@ by {
                    assert(apps@.take(k as int)[m] == apps@[m]);
                    let i = choose|i: int| 0 <= i < rc0.len() && #[trigger] rc0[i].0@ == apps@[m].race@;
                }
                lemma_race_games_absent(apps@.take(k as int), a.race@);
            }
        }
        proof {
            assert forall|i: int| 0 <= i < races@.len() implies #[trigger] races@[i].1 == race_games(apps@.take(k as int + 1), races@[i].0@) by {
                if i < rc0.len() && i != r {
                    assert(races@[i] == rc0[i]);
                }
            }
            assert forall|m: int|
                0 <= m < k + 1 implies exists|i: int| 0 <= i < races@.len() && #[trigger] races@[i].0@ == (#[trigger] apps@[m]).race@ by {
                if m < k {
                    let i = choose|i: int| 0 <= i < rc0.len() && #[trigger] rc0[i].0@ == apps@[m].race@;
                    assert(races@[i].0@ == rc0[i].0@);
                } else {
                    assert(races@[r as int].0@ == a.race@);
                }
            }
        }
        k = k + 1;
    }
    proof {
        assert(apps@.take(apps@.len() as int) =~= apps@);
    }
    let ghost rs = races@;
    let id = PlayerIdentity {
        canonical_name: key.clone(),
        aliases,
        clan_tags,
        races,
        game_count: apps.len() as u32,
    };
    proof {
        assert forall|i: int| 0 <= i < id.races@.len() implies #[trigger] id.races@[i].1 == race_games(apps@, id.races@[i].0@) by {
            assert(id.races@[i].1 == race_games(apps@.take(k as int), id.races@[i].0@));
        }
        assert forall|u: Seq<char>|
            has_text(id.aliases@, u) <==> exists|m: int| 0 <= m < apps@.len() && (#[trigger] apps@[m]).name@ == u by {
            assert(has_text(id.aliases@, u) <==> exists|m: int| 0 <= m < k && (#[trigger] apps@[m]).name@ == u);
        }
        assert forall|u: Seq<char>|
            has_text(id.clan_tags@, u) <==> exists|m: int| 0 <= m < apps@.len() && tag_is(#[trigger] apps@[m], u) by {
            assert(has_text(id.clan_tags@, u) <==> exists|m: int| 0 <= m < k && tag_is(#[trigger] apps@[m], u));
        }
        assert forall|m: int|
            0 <= m < apps@.len() implies exists|i: int| 0 <= i < id.races@.len() && #[trigger] id.races@[i].0@ == (#[trigger] apps@[m]).race@ by {
            assert(m < k);
            let i = choose|i: int| 0 <= i < rs.len() && #[trigger] rs[i].0@ == apps@[m].race@;
            assert(id.races@[i].0@ == apps@[m].race@);
        }
        assert(id.canonical_name@ == key@);
        assert(id.game_count == apps@.len() as u32);
        assert(sorted_texts(id.aliases@));
        assert(sorted_texts(id.clan_tags@));
    }
    id
}

proof fn lemma_race_games_bound(apps: Seq<PlayerAppearance>, race: Seq<char>)
    ensures
        0 <= race_games(apps, race) <= apps.len(),
    decreases apps.len(),
{
    if apps.len() > 0 {
        lemma_race_games_bound(apps.drop_last(), race);
    }
}

proof fn lemma_race_games_absent(apps: Seq<PlayerAppearance>, race: Seq<char>)
    requires
        forall|m: int| 0 <= m < apps.len() ==> (#[trigger] apps[m]).race@ != race,
    ensures
        race_games(apps, race) == 0,
    decreases apps.len(),
{
    if apps.len() > 0 {
        assert forall|m: int| 0 <= m < apps.drop_last().len() implies (#[trigger] apps.drop_last()[m]).race@ != race by {
            assert(apps.drop_last()[m] == apps[m]);
        }
        lemma_race_games_absent(apps.drop_last(), race);
        assert(apps[apps.len() - 1].race@ != race);
    }
}

/// `after` is `before` once `name` has played a game as `race`: what `add`
/// ensures.
pub open spec fn added(before: IdentityResolver, after: IdentityResolver, name: Seq<char>, race: Seq<char>) -> bool {
    let key = normalized_of(name);
    let old_keys = before.keys();
    match key_index_from(old_keys, key, 0) {
        Some(k) => {
            &&& after.keys() == old_keys
            &&& forall|i: int| 0 <= i < old_keys.len() && i != k ==> #[trigger] after.group(i) == before.group(i)
            &&& after.group(k).len() == before.group(k).len() + 1
            &&& after.group(k).drop_last() == before.group(k)
            &&& appearance_of(after.group(k).last(), name, race)
        },
        None => {
            &&& after.keys() == old_keys.push(key)
            &&& forall|i: int| 0 <= i < old_keys.len() ==> #[trigger] after.group(i) == before.group(i)
            &&& after.group(old_keys.len() as int).len() == 1
            &&& appearance_of(after.group(old_keys.len() as int)[0], name, race)
        },
    }
}

/// How many of `names` normalise to `key`.
pub open spec fn count_named(names: Seq<Seq<char>>, key: Seq<char>) -> nat
    decreases names.len(),
{
    if names.len() == 0 {
        0
    } else {
        count_named(names.drop_last(), key) + if normalized_of(names.last()) == key { 1nat } else { 0nat }
    }
}

proof fn lemma_key_index(keys: Seq<Seq<char>>, key: Seq<char>, i: int)
    requires
        0 <= i,
    ensures
        key_index_from(keys, key, i) matches Some(k) ==> i <= k < keys.len() && keys[k] == key && forall|j: int| i <= j < k ==> keys[j] != key,
        key_index_from(keys, key, i) is None ==> forall|j: int| i <= j < keys.len() ==> keys[j] != key,
    decreases keys.len() - i,
{
    if i < keys.len() && keys[i] != key {
        lemma_key_index(keys, key, i + 1);
    }
}

proof fn lemma_counts_upto(
    rs: Seq<IdentityResolver>,
    names: Seq<Seq<char>>,
    races: Seq<Seq<char>>,
    n: int,
)
    requires
        rs.len() == names.len() + 1,
        names.len() == races.len(),
        rs[0].keys().len() == 0,
        forall|j: int| 0 <= j < names.len() ==> added(#[trigger] rs[j], rs[j + 1], names[j], races[j]),
        0 <= n <= names.len(),
    ensures
        rs[n].keys().no_duplicates(),
        forall|i: int| 0 <= i < rs[n].keys().len() ==> (#[trigger] rs[n].group(i)).len() == count_named(
            names.take(n),
            rs[n].keys()[i],
        ),
        forall|j: int| 0 <= j < n ==> rs[n].keys().contains(normalized_of(#[trigger] names[j])),
        forall|key: Seq<char>| count_named(names.take(n), key) > 0 ==> #[trigger] rs[n].keys().contains(key),
    decreases n,
{
    if n == 0 {
        assert(names.take(0) =~= Seq::<Seq<char>>::empty());
    } else {
        let m = n - 1;
        lemma_counts_upto(rs, names, races, m);
        let b = rs[m];
        let a = rs[n];
        assert(added(b, a, names[m], races[m]));
        let key = normalized_of(names[m]);
        assert(names.take(n).drop_last() =~= names.take(m));
        assert(names.take(n).last() == names[m]);
        lemma_key_index(b.keys(), key, 0);
        match key_index_from(b.keys(), key, 0) {
            Some(k) => {
                assert forall|i: int| 0 <= i < a.keys().len() implies (#[trigger] a.group(i)).len() == count_named(
                    names.take(n),
                    a.keys()[i],
                ) by {
                    if i != k {
                        assert(a.group(i) == b.group(i));
                        assert(b.keys()[i] != key);
                    }
                }
                assert forall|j: int| 0 <= j < n implies a.keys().contains(normalized_of(#[trigger] names[j])) by {
                    if j == m {
                        assert(a.keys()[k] == key);
                    }
                }
                assert forall|kk: Seq<char>| count_named(names.take(n), kk) > 0 implies #[trigger] a.keys().contains(kk) by {
                    if kk == key {
                        assert(a.keys()[k] == key);
                    }
                }
            },
            None => {
                let ok = b.keys();
                assert(a.keys() == ok.push(key));
                assert forall|x: int, y: int| 0 <= x < y < a.keys().len() implies a.keys()[x] != a.keys()[y] by {
                    if y == ok.len() {
                        assert(ok[x] != key);
                    } else {
                        assert(ok.no_duplicates());
                    }
                }
                assert(!ok.contains(key));
                assert(count_named(names.take(m), key) == 0);
                assert forall|i: int| 0 <= i < a.keys().len() implies (#[trigger] a.group(i)).len() == count_named(
                    names.take(n),
                    a.keys()[i],
                ) by {
                    if i < ok.len() {
                        assert(a.group(i) == b.group(i));
                        assert(ok[i] != key);
                    }
                }
                assert forall|j: int| 0 <= j < n implies a.keys().contains(normalized_of(#[trigger] names[j])) by {
                    if j == m {
                        assert(a.keys()[ok.len() as int] == key);
                    } else {
                        assert(ok.contains(normalized_of(names[j])));
                        let w = choose|w: int| 0 <= w < ok.len() && ok[w] == normalized_of(names[j]);
                        assert(a.keys()[w] == ok[w]);
                    }
                }
                assert forall|kk: Seq<char>| count_named(names.take(n), kk) > 0 implies #[trigger] a.keys().contains(kk) by {
                    if kk == key {
                        assert(a.keys()[ok.len() as int] == key);
                    } else {
                        assert(ok.contains(kk));
                        let w = choose|w: int| 0 <= w < ok.len() && ok[w] == kk;
                        assert(a.keys()[w] == ok[w]);
                    }
                }
            },
        }
    }
}

/// After a fresh resolver takes the games `names[j]` as `races[j]` in turn,
/// there is one group per distinct normalised name, and each group (so each
/// identity `resolve` gives, whose game count is its group's size) holds
/// exactly as many games as names normalise to its key.
pub proof fn lemma_resolver_counts(rs: Seq<IdentityResolver>, names: Seq<Seq<char>>, races: Seq<Seq<char>>)
    requires
        rs.len() == names.len() + 1,
        names.len() == races.len(),
        rs[0].keys().len() == 0,
        forall|j: int| 0 <= j < names.len() ==> added(#[trigger] rs[j], rs[j + 1], names[j], races[j]),
    ensures
        rs.last().keys().no_duplicates(),
        forall|i: int| 0 <= i < rs.last().keys().len() ==> (#[trigger] rs.last().group(i)).len() == count_named(
            names,
            rs.last().keys()[i],
        ),
        forall|key: Seq<char>| #[trigger] rs.last().keys().contains(key) <==> count_named(names, key) > 0,
{
    lemma_counts_upto(rs, names, races, names.len() as int);
    assert(names.take(names.len() as int) =~= names);
    let last = rs.last();
    assert forall|key: Seq<char>| #[trigger] last.keys().contains(key) implies count_named(names, key) > 0 by {
        let w = choose|w: int| 0 <= w < last.keys().len() && last.keys()[w] == key;
        lemma_group_nonempty(rs, names, races, names.len() as int, w);
    }
}

proof fn lemma_group_nonempty(rs: Seq<IdentityResolver>, names: Seq<Seq<char>>, races: Seq<Seq<char>>, n: int, i: int)
    requires
        rs.len() == names.len() + 1,
        names.len() == races.len(),
        rs[0].keys().len() == 0,
        forall|j: int| 0 <= j < names.len() ==> added(#[trigger] rs[j], rs[j + 1], names[j], races[j]),
        0 <= n <= names.len(),
        0 <= i < rs[n].keys().len(),
    ensures
        rs[n].group(i).len() > 0,
    decreases n,
{
    if n > 0 {
        let m = n - 1;
        let b = rs[m];
        assert(added(b, rs[n], names[m], races[m]));
        let key = normalized_of(names[m]);
        match key_index_from(b.keys(), key, 0) {
            Some(k) => {
                if i != k {
                    lemma_group_nonempty(rs, names, races, m, i);
                }
            },
            None => {
                if i < b.keys().len() {
                    lemma_group_nonempty(rs, names, races, m, i);
                }
            },
        }
    }
}

/// The sum of the game counts of a race list.
pub open spec fn race_count_total(races: Seq<(String, u32)>) -> int
    decreases races.len(),
{
    if races.len() == 0 {
        0
    } else {
        race_count_total(races.drop_last()) + races.last().1
    }
}

/// How many entries of `l` are `r`.
spec fn times_in(l: Seq<Seq<char>>, r: Seq<char>) -> int
    decreases l.len(),
{
    if l.len() == 0 {
        0
    } else {
        times_in(l.drop_last(), r) + if l.last() == r { 1int } else { 0int }
    }
}

/// The games of `apps` played as each race of `l`, summed.
spec fn games_over(l: Seq<Seq<char>>, apps: Seq<PlayerAppearance>) -> int
    decreases l.len(),
{
    if l.len() == 0 {
        0
    } else {
        games_over(l.drop_last(), apps) + race_games(apps, l.last())
    }
}

proof fn lemma_times_in(l: Seq<Seq<char>>, r: Seq<char>)
    requires
        forall|i: int, j: int| 0 <= i < j < l.len() ==> l[i] != l[j],
    ensures
        times_in(l, r) == if l.contains(r) { 1int } else { 0int },
    decreases l.len(),
{
    if l.len() > 0 {
        let p = l.drop_last();
        lemma_times_in(p, r);
        if l.last() == r {
            assert(!p.contains(r)) by {
                if p.contains(r) {
                    let w = choose|w: int| 0 <= w < p.len() && p[w] == r;
                    assert(l[w] == l[l.len() - 1]);
                }
            }
        } else {
            if l.contains(r) {
                let w = choose|w: int| 0 <= w < l.len() && l[w] == r;
                assert(p[w] == r);
            }
            if p.contains(r) {
                let w = choose|w: int| 0 <= w < p.len() && p[w] == r;
                assert(l[w] == r);
            }
        }
    }
}

proof fn lemma_games_over_step(l: Seq<Seq<char>>, apps: Seq<PlayerAppearance>)
    requires
        apps.len() > 0,
    ensures
        games_over(l, apps) == games_over(l, apps.drop_last()) + times_in(l, apps.last().race@),
    decreases l.len(),
{
    if l.len() > 0 {
        lemma_games_over_step(l.drop_last(), apps);
    }
}

proof fn lemma_games_over(l: Seq<Seq<char>>, apps: Seq<PlayerAppearance>)
    requires
        forall|i: int, j: int| 0 <= i < j < l.len() ==> l[i] != l[j],
        forall|k: int| 0 <= k < apps.len() ==> l.contains(#[trigger] apps[k].race@),
    ensures
        games_over(l, apps) == apps.len(),
    decreases apps.len(),
{
    if apps.len() == 0 {
        lemma_games_over_zero(l, apps);
    } else {
        let p = apps.drop_last();
        assert forall|k: int| 0 <= k < p.len() implies l.contains(#[trigger] p[k].race@) by {
            assert(p[k] == apps[k]);
        }
        lemma_games_over(l, p);
        lemma_games_over_step(l, apps);
        assert(l.contains(apps[apps.len() - 1].race@));
        lemma_times_in(l, apps.last().race@);
    }
}

proof fn lemma_games_over_zero(l: Seq<Seq<char>>, apps: Seq<PlayerAppearance>)
    requires
        apps.len() == 0,
    ensures
        games_over(l, apps) == 0,
    decreases l.len(),
{
    if l.len() > 0 {
        lemma_games_over_zero(l.drop_last(), apps);
    }
}

proof fn lemma_total_is_games_over(races: Seq<(String, u32)>, apps: Seq<PlayerAppearance>)
    requires
        forall|i: int| 0 <= i < races.len() ==> #[trigger] races[i].1 == race_games(apps, races[i].0@),
    ensures
        race_count_total(races) == games_over(races.map_values(|p: (String, u32)| p.0@), apps),
    decreases races.len(),
{
    if races.len() > 0 {
        let p = races.drop_last();
        assert forall|i: int| 0 <= i < p.len() implies #[trigger] p[i].1 == race_games(apps, p[i].0@) by {
            assert(p[i] == races[i]);
        }
        lemma_total_is_games_over(p, apps);
        assert(races.map_values(|q: (String, u32)| q.0@).drop_last() =~= p.map_values(|q: (String, u32)| q.0@));
        assert(races[races.len() - 1].1 == race_games(apps, races[races.len() - 1].0@));
    }
}

/// An identity's games per race add up to its game count.
pub proof fn lemma_race_counts_sum(id: PlayerIdentity, key: Seq<char>, apps: Seq<PlayerAppearance>)
    requires
        identity_of(id, key, apps),
        apps.len() <= u32::MAX,
    ensures
        race_count_total(id.races@) == id.game_count,
{
    let l = id.races@.map_values(|p: (String, u32)| p.0@);
    assert forall|i: int, j: int| 0 <= i < j < l.len() implies l[i] != l[j] by {
        assert(id.races@[i].0@ != id.races@[j].0@);
    }
    assert forall|k: int| 0 <= k < apps.len() implies l.contains(#[trigger] apps[k].race@) by {
        let i = choose|i: int| 0 <= i < id.races@.len() && #[trigger] id.races@[i].0@ == apps[k].race@;
        assert(l[i] == apps[k].race@);
    }
    lemma_games_over(l, apps);
    lemma_total_is_games_over(id.races@, apps);
}

/// The number of appearances in the first `n` groups.
pub open spec fn group_total(r: IdentityResolver, n: int) -> int
    decreases n,
{
    if n <= 0 {
        0
    } else {
        group_total(r, n - 1) + r.group(n - 1).len()
    }
}

/// The sum of the game counts of a list of identities.
pub open spec fn identity_total(ids: Seq<PlayerIdentity>) -> int
    decreases ids.len(),
{
    if ids.len() == 0 {
        0
    } else {
        identity_total(ids.drop_last()) + ids.last().game_count
    }
}

proof fn lemma_group_total_same(a: IdentityResolver, b: IdentityResolver, n: int, k: int)
    requires
        0 <= n,
        forall|i: int| 0 <= i < n && i != k ==> #[trigger] a.group(i) == b.group(i),
        0 <= k < n ==> a.group(k).len() == b.group(k).len() + 1,
    ensures
        group_total(a, n) == group_total(b, n) + if 0 <= k < n { 1int } else { 0int },
    decreases n,
{
    if n > 0 {
        lemma_group_total_same(a, b, n - 1, k);
        if n - 1 != k {
            assert(a.group(n - 1) == b.group(n - 1));
        }
    }
}

proof fn lemma_total_upto(rs: Seq<IdentityResolver>, names: Seq<Seq<char>>, races: Seq<Seq<char>>, n: int)
    requires
        rs.len() == names.len() + 1,
        names.len() == races.len(),
        rs[0].keys().len() == 0,
        forall|j: int| 0 <= j < names.len() ==> added(#[trigger] rs[j], rs[j + 1], names[j], races[j]),
        0 <= n <= names.len(),
    ensures
        group_total(rs[n], rs[n].keys().len() as int) == n,
    decreases n,
{
    if n > 0 {
        let m = n - 1;
        lemma_total_upto(rs, names, races, m);
        let b = rs[m];
        let a = rs[n];
        assert(added(b, a, names[m], races[m]));
        let key = normalized_of(names[m]);
        lemma_key_index(b.keys(), key, 0);
        match key_index_from(b.keys(), key, 0) {
            Some(k) => {
                lemma_group_total_same(a, b, b.keys().len() as int, k);
            },
            None => {
                let len = b.keys().len() as int;
                lemma_group_total_same(a, b, len, -1);
                assert(a.keys().len() == len + 1);
            },
        }
    }
}

proof fn lemma_identity_total(ids: Seq<PlayerIdentity>, r: IdentityResolver, n: int)
    requires
        0 <= n <= ids.len(),
        ids.len() == r.keys().len(),
        forall|i: int| 0 <= i < ids.len() ==> identity_of(#[trigger] ids[i], r.keys()[i], r.group(i)),
        forall|i: int| 0 <= i < r.keys().len() ==> #[trigger] r.group(i).len() <= u32::MAX,
    ensures
        identity_total(ids.take(n)) == group_total(r, n),
    decreases n,
{
    if n > 0 {
        lemma_identity_total(ids, r, n - 1);
        assert(ids.take(n).drop_last() =~= ids.take(n - 1));
        assert(identity_of(ids[n - 1], r.keys()[n - 1], r.group(n - 1)));
        assert(r.group(n - 1).len() <= u32::MAX);
    }
}

/// After a fresh resolver takes the games `names[j]` as `races[j]` in turn,
/// the identities `resolve` gives count every game exactly once: their game
/// counts sum to the number of games added.
pub proof fn lemma_resolver_total(rs: Seq<IdentityResolver>, names: Seq<Seq<char>>, races: Seq<Seq<char>>, ids: Seq<PlayerIdentity>)
    requires
        rs.len() == names.len() + 1,
        names.len() == races.len(),
        rs[0].keys().len() == 0,
        forall|j: int| 0 <= j < names.len() ==> added(#[trigger] rs[j], rs[j + 1], names[j], races[j]),
        forall|i: int| 0 <= i < rs.last().keys().len() ==> #[trigger] rs.last().group(i).len() <= u32::MAX,
        ids.len() == rs.last().keys().len(),
        forall|i: int| 0 <= i < ids.len() ==> identity_of(#[trigger] ids[i], rs.last().keys()[i], rs.last().group(i)),
    ensures
        identity_total(ids) == names.len(),
{
    lemma_total_upto(rs, names, races, names.len() as int);
    lemma_identity_total(ids, rs.last(), ids.len() as int);
    assert(ids.take(ids.len() as int) =~= ids);
}

} // verus!
