//! Build order comparison: action sequences per player, their edit
//! (Levenshtein) distance and their longest common subsequence.
use vstd::prelude::*;
use crate::build_order::{BuildAction, BuildOrderEntry};

verus! {

/// A build action without its timing, for comparison.
#[derive(Debug, Clone, Copy, PartialEq, Eq, Structural, Hash)]
pub enum ActionKey {
    Build(u16),
    Train(u16),
    UnitMorph(u16),
    BuildingMorph(u16),
    Research(u8),
    Upgrade(u8),
    TrainFighter,
}

/// The comparison key of a build action.
pub open spec fn key_of_spec(a: BuildAction) -> ActionKey {
    match a {
        BuildAction::Build(id) => ActionKey::Build(id),
        BuildAction::Train(id) => ActionKey::Train(id),
        BuildAction::UnitMorph(id) => ActionKey::UnitMorph(id),
        BuildAction::BuildingMorph(id) => ActionKey::BuildingMorph(id),
        BuildAction::Research(id) => ActionKey::Research(id),
        BuildAction::Upgrade(id) => ActionKey::Upgrade(id),
        BuildAction::TrainFighter => ActionKey::TrainFighter,
    }
}

impl ActionKey {
    /// The comparison key of a build action.
    pub fn of(action: &BuildAction) -> (r: ActionKey)
        ensures
            r == key_of_spec(*action),
    {
        match action {
            BuildAction::Build(id) => ActionKey::Build(*id),
            BuildAction::Train(id) => ActionKey::Train(*id),
            BuildAction::UnitMorph(id) => ActionKey::UnitMorph(*id),
            BuildAction::BuildingMorph(id) => ActionKey::BuildingMorph(*id),
            BuildAction::Research(id) => ActionKey::Research(*id),
            BuildAction::Upgrade(id) => ActionKey::Upgrade(*id),
            BuildAction::TrainFighter => ActionKey::TrainFighter,
        }
    }
}

/// The keys of `player`'s actions in `entries`, in order.
pub open spec fn player_keys(entries: Seq<BuildOrderEntry>, player: u8) -> Seq<ActionKey>
    decreases entries.len(),
{
    if entries.len() == 0 {
        Seq::empty()
    } else {
        let prev = player_keys(entries.drop_last(), player);
        if entries.last().player_id == player {
            prev.push(key_of_spec(entries.last().action))
        } else {
            prev
        }
    }
}

proof fn lemma_player_keys_len(entries: Seq<BuildOrderEntry>, player: u8)
    ensures
        player_keys(entries, player).len() <= entries.len(),
    decreases entries.len(),
{
    if entries.len() > 0 {
        lemma_player_keys_len(entries.drop_last(), player);
    }
}

/// One player's sequence of build actions, without timing.
#[derive(Debug, Clone, PartialEq, Eq)]
pub struct BuildSequence {
    actions: Vec<ActionKey>,
}

impl View for BuildSequence {
    type V = Seq<ActionKey>;

    closed spec fn view(&self) -> Seq<ActionKey> {
        self.actions@
    }
}

impl BuildSequence {
    /// A sequence of the given actions.
    pub fn from_actions(actions: Vec<ActionKey>) -> (r: BuildSequence)
        ensures
            r@ == actions@,
    {
        BuildSequence { actions }
    }

    /// The sequence of `player`'s actions in the build order.
    pub fn from_build_order(entries: &[BuildOrderEntry], player_id: u8) -> (r: BuildSequence)
        ensures
            r@ == player_keys(entries@, player_id),
    {
        let n = entries.len();
        proof {
            lemma_player_keys_len(entries@, player_id);
            assert(player_keys(entries@, player_id).len() <= n);
        }
        Self::from_build_order_opening(entries, player_id, usize::MAX)
    }

    /// The sequence of `player`'s first `max_actions` actions (its opening).
    pub fn from_build_order_opening(entries: &[BuildOrderEntry], player_id: u8, max_actions: usize) -> (r: BuildSequence)
        ensures
            r@ == (if player_keys(entries@, player_id).len() <= max_actions {
                player_keys(entries@, player_id)
            } else {
                player_keys(entries@, player_id).take(max_actions as int)
            }),
    {
        let mut actions: Vec<ActionKey> = Vec::new();
        let mut i: usize = 0;
        while i < entries.len()
            invariant
                i <= entries@.len(),
                actions@ == (if player_keys(entries@.take(i as int), player_id).len() <= max_actions {
                    player_keys(entries@.take(i as int), player_id)
                } else {
                    player_keys(entries@.take(i as int), player_id).take(max_actions as int)
                }),
            decreases entries@.len() - i,
        {
            proof {
                assert(entries@.take(i as int + 1).drop_last() =~= entries@.take(i as int));
            }
            let e = &entries[i];
            if e.player_id == player_id && actions.len() < max_actions {
                actions.push(ActionKey::of(&e.action));
            }
            proof {
                let all = player_keys(entries@.take(i as int + 1), player_id);
                let prev = player_keys(entries@.take(i as int), player_id);
                if all.len() > max_actions && prev.len() > max_actions {
                    assert(all.take(max_actions as int) =~= prev.take(max_actions as int));
                } else if all.len() > max_actions {
                    assert(all.take(max_actions as int) =~= prev);
                }
            }
            i = i + 1;
        }
        proof {
            assert(entries@.take(entries@.len() as int) =~= entries@);
        }
        BuildSequence { actions }
    }

    /// Number of actions.
    pub fn len(&self) -> (r: usize)
        ensures
            r == self@.len(),
    {
        self.actions.len()
    }

    /// Whether there are no actions.
    pub fn is_empty(&self) -> (r: bool)
        ensures
            r == (self@.len() == 0),
    {
        self.actions.len() == 0
    }

    /// The actions, in order.
    pub fn actions(&self) -> (r: &[ActionKey])
        ensures
            r@ == self@,
    {
        self.actions.as_slice()
    }
}

/// Edit (Levenshtein) distance between the first `i` actions of `a` and the
/// first `j` of `b`: the fewest insertions, deletions and substitutions.
pub open spec fn lev(a: Seq<ActionKey>, b: Seq<ActionKey>, i: int, j: int) -> int
    decreases i + j,
{
    if i <= 0 {
        if j <= 0 { 0 } else { j }
    } else if j <= 0 {
        i
    } else {
        let del = lev(a, b, i - 1, j) + 1;
        let ins = lev(a, b, i, j - 1) + 1;
        let sub = lev(a, b, i - 1, j - 1) + if a[i - 1] == b[j - 1] { 0int } else { 1int };
        let m = if del < ins { del } else { ins };
        if m < sub { m } else { sub }
    }
}

/// Edit distance between two action sequences.
pub open spec fn edit_distance_spec(a: Seq<ActionKey>, b: Seq<ActionKey>) -> int {
    lev(a, b, a.len() as int, b.len() as int)
}

/// Length of a longest common subsequence of the first `i` actions of `a`
/// and the first `j` of `b`.
pub open spec fn lcs(a: Seq<ActionKey>, b: Seq<ActionKey>, i: int, j: int) -> int
    decreases i + j,
{
    if i <= 0 || j <= 0 {
        0
    } else if a[i - 1] == b[j - 1] {
        lcs(a, b, i - 1, j - 1) + 1
    } else {
        let x = lcs(a, b, i - 1, j);
        let y = lcs(a, b, i, j - 1);
        if x > y { x } else { y }
    }
}

/// Length of a longest common subsequence of two action sequences.
pub open spec fn lcs_spec(a: Seq<ActionKey>, b: Seq<ActionKey>) -> int {
    lcs(a, b, a.len() as int, b.len() as int)
}

proof fn lemma_lev_bounds(a: Seq<ActionKey>, b: Seq<ActionKey>, i: int, j: int)
    requires
        0 <= i,
        0 <= j,
    ensures
        lev(a, b, i, j) <= (if i > j { i } else { j }),
        lev(a, b, i, j) >= (if i > j { i - j } else { j - i }),
    decreases i + j,
{
    if i > 0 && j > 0 {
        lemma_lev_bounds(a, b, i - 1, j);
        lemma_lev_bounds(a, b, i, j - 1);
        lemma_lev_bounds(a, b, i - 1, j - 1);
    }
}

/// Edit distance computed by the two-row dynamic programme.
pub fn edit_distance(a: &[ActionKey], b: &[ActionKey]) -> (r: usize)
    requires
        a@.len() < usize::MAX,
        b@.len() < usize::MAX,
    ensures
        r == edit_distance_spec(a@, b@),
{
    let m = a.len();
    let n = b.len();
    let mut prev: Vec<usize> = Vec::new();
    let mut j: usize = 0;
    while j <= n
        invariant
            j <= n + 1,
            n == b@.len(),
            n < usize::MAX,
            prev@.len() == j,
            forall|k: int| 0 <= k < j ==> #[trigger] prev@[k] == lev(a@, b@, 0, k),
        decreases n + 1 - j,
    {
        prev.push(j);
        j = j + 1;
    }
    let mut curr: Vec<usize> = Vec::new();
    while curr.len() <= n
        invariant
            curr@.len() <= n + 1,
        decreases n + 1 - curr@.len(),
    {
        curr.push(0);
    }
    let mut i: usize = 1;
    while i <= m
        invariant
            1 <= i <= m + 1,
            m == a@.len(),
            n == b@.len(),
            m < usize::MAX,
            n < usize::MAX,
            prev@.len() == n + 1,
            curr@.len() == n + 1,
            forall|k: int| 0 <= k <= n ==> #[trigger] prev@[k] == lev(a@, b@, i - 1, k),
        decreases m + 1 - i,
    {
        curr.set(0, i);
        let mut j: usize = 1;
        while j <= n
            invariant
                1 <= i <= m,
                1 <= j <= n + 1,
                m == a@.len(),
                n == b@.len(),
                m < usize::MAX,
                n < usize::MAX,
                prev@.len() == n + 1,
                curr@.len() == n + 1,
                forall|k: int| 0 <= k <= n ==> #[trigger] prev@[k] == lev(a@, b@, i - 1, k),
                forall|k: int| 0 <= k < j ==> #[trigger] curr@[k] == lev(a@, b@, i as int, k),
            decreases n + 1 - j,
        {
            proof {
                lemma_lev_bounds(a@, b@, i - 1, j as int);
                lemma_lev_bounds(a@, b@, i as int, j - 1);
                lemma_lev_bounds(a@, b@, i - 1, j - 1);
            }
            let cost: usize = if a[i - 1] == b[j - 1] { 0 } else { 1 };
            let del = prev[j] + 1;
            let ins = curr[j - 1] + 1;
            let sub = prev[j - 1] + cost;
            let best = if del < ins { del } else { ins };
            let best = if best < sub { best } else { sub };
            curr.set(j, best);
            j = j + 1;
        }
        core::mem::swap(&mut prev, &mut curr);
        i = i + 1;
    }
    prev[n]
}

proof fn lemma_lcs_bounds(a: Seq<ActionKey>, b: Seq<ActionKey>, i: int, j: int)
    requires
        0 <= i,
        0 <= j,
    ensures
        0 <= lcs(a, b, i, j) <= (if i < j { i } else { j }),
    decreases i + j,
{
    if i > 0 && j > 0 {
        lemma_lcs_bounds(a, b, i - 1, j);
        lemma_lcs_bounds(a, b, i, j - 1);
        lemma_lcs_bounds(a, b, i - 1, j - 1);
    }
}

/// Longest common subsequence length computed by the two-row dynamic programme.
pub fn lcs_length(a: &[ActionKey], b: &[ActionKey]) -> (r: usize)
    requires
        a@.len() < usize::MAX,
        b@.len() < usize::MAX,
    ensures
        r == lcs_spec(a@, b@),
{
    let m = a.len();
    let n = b.len();
    let mut prev: Vec<usize> = Vec::new();
    while prev.len() <= n
        invariant
            prev@.len() <= n + 1,
            forall|k: int| 0 <= k < prev@.len() ==> #[trigger] prev@[k] == 0,
        decreases n + 1 - prev@.len(),
    {
        prev.push(0);
    }
    let mut curr: Vec<usize> = Vec::new();
    while curr.len() <= n
        invariant
            curr@.len() <= n + 1,
            forall|k: int| 0 <= k < curr@.len() ==> #[trigger] curr@[k] == 0,
        decreases n + 1 - curr@.len(),
    {
        curr.push(0);
    }
    let mut i: usize = 1;
    while i <= m
        invariant
            1 <= i <= m + 1,
            m == a@.len(),
            n == b@.len(),
            m < usize::MAX,
            n < usize::MAX,
            prev@.len() == n + 1,
            curr@.len() == n + 1,
            curr@[0] == 0,
            forall|k: int| 0 <= k <= n ==> #[trigger] prev@[k] == lcs(a@, b@, i - 1, k),
        decreases m + 1 - i,
    {
        let mut j: usize = 1;
        while j <= n
            invariant
                1 <= i <= m,
                1 <= j <= n + 1,
                m == a@.len(),
                n == b@.len(),
                n < usize::MAX,
                prev@.len() == n + 1,
                curr@.len() == n + 1,
                curr@[0] == 0,
                forall|k: int| 0 <= k <= n ==> #[trigger] prev@[k] == lcs(a@, b@, i - 1, k),
                forall|k: int| 0 <= k < j ==> #[trigger] curr@[k] == lcs(a@, b@, i as int, k),
            decreases n + 1 - j,
        {
            proof {
                lemma_lcs_bounds(a@, b@, i - 1, j - 1);
            }
            if a[i - 1] == b[j - 1] {
                let v = prev[j - 1] + 1;
                curr.set(j, v);
            } else {
                let x = prev[j];
                let y = curr[j - 1];
                curr.set(j, if x > y { x } else { y });
            }
            j = j + 1;
        }
        core::mem::swap(&mut prev, &mut curr);
        let mut k: usize = 0;
        while k < curr.len()
            invariant
                k <= curr@.len(),
                curr@.len() == n + 1,
                forall|t: int| 0 <= t < k ==> #[trigger] curr@[t] == 0,
            decreases curr@.len() - k,
        {
            curr.set(k, 0);
            k = k + 1;
        }
        i = i + 1;
    }
    prev[n]
}

/// Edit distance is symmetric.
pub proof fn lemma_edit_distance_symmetric(a: Seq<ActionKey>, b: Seq<ActionKey>)
    ensures
        edit_distance_spec(a, b) == edit_distance_spec(b, a),
{
    lemma_lev_symmetric(a, b, a.len() as int, b.len() as int);
}

proof fn lemma_lev_symmetric(a: Seq<ActionKey>, b: Seq<ActionKey>, i: int, j: int)
    ensures
        lev(a, b, i, j) == lev(b, a, j, i),
    decreases i + j,
{
    if i > 0 && j > 0 {
        lemma_lev_symmetric(a, b, i - 1, j);
        lemma_lev_symmetric(a, b, i, j - 1);
        lemma_lev_symmetric(a, b, i - 1, j - 1);
    }
}

/// The edit distance lies between the difference of the lengths and the
/// longer length, so a similarity `1 - distance / longer` lies in `[0, 1]`.
pub proof fn lemma_edit_distance_bounds(a: Seq<ActionKey>, b: Seq<ActionKey>)
    ensures
        edit_distance_spec(a, b) <= (if a.len() > b.len() { a.len() as int } else { b.len() as int }),
        edit_distance_spec(a, b) >= (if a.len() > b.len() { a.len() - b.len() } else { b.len() - a.len() }),
{
    lemma_lev_bounds(a, b, a.len() as int, b.len() as int);
}

/// A sequence is at distance 0 from itself.
pub proof fn lemma_edit_distance_self(a: Seq<ActionKey>)
    ensures
        edit_distance_spec(a, a) == 0,
{
    lemma_lev_diag(a, a.len() as int);
}

proof fn lemma_lev_diag(a: Seq<ActionKey>, i: int)
    requires
        0 <= i <= a.len(),
    ensures
        lev(a, a, i, i) == 0,
    decreases i,
{
    if i > 0 {
        lemma_lev_diag(a, i - 1);
        lemma_lev_bounds(a, a, i - 1, i);
        lemma_lev_bounds(a, a, i, i - 1);
    }
}

/// The common subsequence is symmetric and no longer than the shorter sequence.
pub proof fn lemma_lcs_symmetric_bounded(a: Seq<ActionKey>, b: Seq<ActionKey>)
    ensures
        lcs_spec(a, b) == lcs_spec(b, a),
        0 <= lcs_spec(a, b) <= (if a.len() < b.len() { a.len() as int } else { b.len() as int }),
{
    lemma_lcs_symmetric(a, b, a.len() as int, b.len() as int);
    lemma_lcs_bounds(a, b, a.len() as int, b.len() as int);
}

proof fn lemma_lcs_symmetric(a: Seq<ActionKey>, b: Seq<ActionKey>, i: int, j: int)
    ensures
        lcs(a, b, i, j) == lcs(b, a, j, i),
    decreases i + j,
{
    if i > 0 && j > 0 {
        lemma_lcs_symmetric(a, b, i - 1, j);
        lemma_lcs_symmetric(a, b, i, j - 1);
        lemma_lcs_symmetric(a, b, i - 1, j - 1);
    }
}

/// A sequence shares all of itself with itself.
pub proof fn lemma_lcs_self(a: Seq<ActionKey>)
    ensures
        lcs_spec(a, a) == a.len(),
{
    lemma_lcs_diag(a, a.len() as int);
}

proof fn lemma_lcs_diag(a: Seq<ActionKey>, i: int)
    requires
        0 <= i <= a.len(),
    ensures
        lcs(a, a, i, i) == i,
    decreases i,
{
    if i > 0 {
        lemma_lcs_diag(a, i - 1);
    }
}

/// The entries of player `player`, in order.
pub open spec fn entries_of(entries: Seq<BuildOrderEntry>, player: u8) -> Seq<BuildOrderEntry>
    decreases entries.len(),
{
    if entries.len() == 0 {
        Seq::empty()
    } else {
        let prev = entries_of(entries.drop_last(), player);
        if entries.last().player_id == player {
            prev.push(entries.last())
        } else {
            prev
        }
    }
}

/// The first `n` entries of player `player` (all of them when fewer).
pub open spec fn first_entries_of(entries: Seq<BuildOrderEntry>, player: u8, n: nat) -> Seq<BuildOrderEntry> {
    let all = entries_of(entries, player);
    if all.len() <= n { all } else { all.take(n as int) }
}

proof fn lemma_keys_of_entries(entries: Seq<BuildOrderEntry>, player: u8)
    ensures
        player_keys(entries, player) == entries_of(entries, player).map_values(
            |e: BuildOrderEntry| key_of_spec(e.action),
        ),
        forall|i: int| 0 <= i < entries_of(entries, player).len() ==> (#[trigger] entries_of(entries, player)[i]).player_id == player,
    decreases entries.len(),
{
    if entries.len() > 0 {
        lemma_keys_of_entries(entries.drop_last(), player);
        let prev = entries_of(entries.drop_last(), player);
        if entries.last().player_id == player {
            assert(prev.push(entries.last()).map_values(|e: BuildOrderEntry| key_of_spec(e.action))
                =~= prev.map_values(|e: BuildOrderEntry| key_of_spec(e.action)).push(
                key_of_spec(entries.last().action),
            ));
        }
    }
}

proof fn lemma_keys_of_own(s: Seq<BuildOrderEntry>, player: u8)
    requires
        forall|i: int| 0 <= i < s.len() ==> (#[trigger] s[i]).player_id == player,
    ensures
        player_keys(s, player) == s.map_values(|e: BuildOrderEntry| key_of_spec(e.action)),
    decreases s.len(),
{
    if s.len() > 0 {
        lemma_keys_of_own(s.drop_last(), player);
        assert(s.drop_last().map_values(|e: BuildOrderEntry| key_of_spec(e.action)).push(
            key_of_spec(s.last().action),
        ) =~= s.map_values(|e: BuildOrderEntry| key_of_spec(e.action)));
    }
}

/// An opening is the build sequence of the player's first `n` entries: what
/// `from_build_order_opening` gives equals what `from_build_order` gives on
/// those entries alone.
pub proof fn lemma_opening_is_build_of_first_entries(entries: Seq<BuildOrderEntry>, player: u8, n: nat)
    ensures
        ({
            let all = player_keys(entries, player);
            (if all.len() <= n { all } else { all.take(n as int) }) == player_keys(
                first_entries_of(entries, player, n),
                player,
            )
        }),
{
    lemma_keys_of_entries(entries, player);
    let own = entries_of(entries, player);
    let f = first_entries_of(entries, player, n);
    assert forall|i: int| 0 <= i < f.len() implies (#[trigger] f[i]).player_id == player by {
        assert(f[i] == own[i]);
    }
    lemma_keys_of_own(f, player);
    if own.len() > n {
        assert(own.map_values(|e: BuildOrderEntry| key_of_spec(e.action)).take(n as int)
            =~= own.take(n as int).map_values(|e: BuildOrderEntry| key_of_spec(e.action)));
    }
}

} // verus!
