//! Regions: maximal 4-connected areas of tiles that are all walkable or all
//! unwalkable, their adjacency, and the walkable groups built over them.
use vstd::prelude::*;
use crate::map::{TileMap, MapModel};
use crate::tile::{has, TileFlags};

verus! {

/// Whether tile `b` is one of the four grid neighbours of tile `a`, in a
/// row-major grid of `n` tiles that is `w` tiles wide.
pub open spec fn adjacent(w: int, n: int, a: int, b: int) -> bool {
    &&& 0 <= a < n
    &&& 0 <= b < n
    &&& {
        ||| (b == a + 1 && a % w != w - 1)
        ||| (b + 1 == a && a % w != 0)
        ||| b == a + w
        ||| b + w == a
    }
}

/// Step `i` of the tile sequence `p` moves to a grid neighbour.
pub open spec fn walk_step(pass: Seq<bool>, w: int, p: Seq<int>, i: int) -> bool {
    adjacent(w, pass.len() as int, p[i], p[i + 1])
}

/// `p` is a path of neighbouring tiles that all share the walkability of its first tile.
pub open spec fn is_walk(pass: Seq<bool>, w: int, p: Seq<int>) -> bool {
    &&& p.len() >= 1
    &&& forall|i: int| 0 <= i < p.len() ==> 0 <= #[trigger] p[i] < pass.len() && pass[p[i]] == pass[p[0]]
    &&& forall|i: int| 0 <= i < p.len() - 1 ==> #[trigger] walk_step(pass, w, p, i)
}

/// Tiles `a` and `b` are joined by a 4-connected path of tiles of one walkability.
pub open spec fn connected(pass: Seq<bool>, w: int, a: int, b: int) -> bool {
    exists|p: Seq<int>| #[trigger] is_walk(pass, w, p) && p[0] == a && p.last() == b
}

/// Walkability of each tile of a map, row-major.
pub open spec fn walkable_tiles(m: MapModel) -> Seq<bool> {
    Seq::new(m.tiles.len(), |i: int| has(m.tiles[i].flags, TileFlags::WALKABLE))
}

/// Number of the first `k` labels equal to `q`.
pub open spec fn label_count(labels: Seq<usize>, q: int, k: int) -> int
    decreases k,
{
    if k <= 0 {
        0
    } else {
        label_count(labels, q, k - 1) + if labels[k - 1] == q { 1int } else { 0int }
    }
}

/// Sum of the columns (`i % w`) of the first `k` tiles labelled `q`.
pub open spec fn label_col_sum(labels: Seq<usize>, q: int, w: int, k: int) -> int
    decreases k,
{
    if k <= 0 {
        0
    } else {
        label_col_sum(labels, q, w, k - 1) + if labels[k - 1] == q { (k - 1) % w } else { 0int }
    }
}

/// Sum of the rows (`i / w`) of the first `k` tiles labelled `q`.
pub open spec fn label_row_sum(labels: Seq<usize>, q: int, w: int, k: int) -> int
    decreases k,
{
    if k <= 0 {
        0
    } else {
        label_row_sum(labels, q, w, k - 1) + if labels[k - 1] == q { (k - 1) / w } else { 0int }
    }
}

/// Pixel coordinate of the centre of a set of `count` tiles whose tile
/// coordinates add up to `sum`: the mean tile, scaled to pixels, plus half a tile.
pub open spec fn center_of(sum: int, count: int) -> int {
    (32 * sum + 16 * count) / count
}

/// No neighbour of `t` with its walkability is left unlabelled.
pub open spec fn closed_nonu(pass: Seq<bool>, w: int, labels: Seq<usize>, t: int) -> bool {
    forall|b: int|
        #[trigger] adjacent(w, pass.len() as int, t, b) && pass[b] == pass[t] ==> labels[b]
            != UNASSIGNED
}

/// Label of a tile that no region has claimed yet.
pub const UNASSIGNED: usize = usize::MAX;

/// A contiguous region of tiles with the same walkability.
#[derive(Debug, Clone)]
pub struct Region {
    pub index: usize,
    pub walkable: bool,
    /// Pixel centre of the region's tiles.
    pub center_x: i32,
    pub center_y: i32,
    pub tile_count: usize,
    pub group: usize,
    pub neighbors: Vec<usize>,
}

/// Region `q`'s own fields agree with the labelling: its index, walkability,
/// size and centre.
pub open spec fn region_stats(reg: Region, q: int, pass: Seq<bool>, w: int, labels: Seq<usize>, seed: int) -> bool {
    let n = pass.len() as int;
    &&& reg.index == q
    &&& reg.walkable == pass[seed]
    &&& reg.tile_count == label_count(labels, q, n)
    &&& reg.center_x == center_of(label_col_sum(labels, q, w, n), label_count(labels, q, n))
    &&& reg.center_y == center_of(label_row_sum(labels, q, w, n), label_count(labels, q, n))
}

proof fn lemma_mod_step(a: int, w: int)
    requires
        w > 0,
        a >= 0,
        a % w != w - 1,
    ensures
        (a + 1) % w == a % w + 1,
        (a + 1) / w == a / w,
{
    vstd::arithmetic::div_mod::lemma_fundamental_div_mod(a, w);
    vstd::arithmetic::div_mod::lemma_mod_pos_bound(a, w);
    assert(a == (a / w) * w + a % w) by (nonlinear_arith)
        requires
            a == w * (a / w) + a % w,
    ;
    crate::map::lemma_row_col(a + 1, w, a / w, a % w + 1);
}

/// Grid adjacency is symmetric.
pub proof fn lemma_adjacent_symmetric(w: int, n: int, a: int, b: int)
    requires
        w > 0,
        adjacent(w, n, a, b),
    ensures
        adjacent(w, n, b, a),
{
    if b == a + 1 && a % w != w - 1 {
        lemma_mod_step(a, w);
    } else if b + 1 == a && a % w != 0 {
        vstd::arithmetic::div_mod::lemma_fundamental_div_mod(b, w);
        vstd::arithmetic::div_mod::lemma_mod_pos_bound(b, w);
        if b % w == w - 1 {
            assert(a == (b / w + 1) * w + 0) by (nonlinear_arith)
                requires
                    b == w * (b / w) + b % w,
                    b % w == w - 1,
                    a == b + 1,
            ;
            crate::map::lemma_row_col(a, w, b / w + 1, 0);
        }
    }
}

proof fn lemma_connected_refl(pass: Seq<bool>, w: int, a: int)
    requires
        0 <= a < pass.len(),
    ensures
        connected(pass, w, a, a),
{
    let p = seq![a];
    assert(is_walk(pass, w, p));
}

proof fn lemma_connected_extend(pass: Seq<bool>, w: int, a: int, b: int, c: int)
    requires
        connected(pass, w, a, b),
        adjacent(w, pass.len() as int, b, c),
        pass[c] == pass[b],
    ensures
        connected(pass, w, a, c),
{
    let p = choose|p: Seq<int>| #[trigger] is_walk(pass, w, p) && p[0] == a && p.last() == b;
    let p2 = p.push(c);
    assert forall|i: int| 0 <= i < p2.len() - 1 implies #[trigger] walk_step(pass, w, p2, i) by {
        if i < p.len() - 1 {
            assert(walk_step(pass, w, p, i));
        }
    }
    assert forall|i: int| 0 <= i < p2.len() implies 0 <= #[trigger] p2[i] < pass.len() && pass[p2[i]]
        == pass[p2[0]] by {
        if i < p.len() {
            assert(p2[i] == p[i]);
        }
    }
    assert(is_walk(pass, w, p2));
}

proof fn lemma_connected_reverse(pass: Seq<bool>, w: int, a: int, b: int)
    requires
        w > 0,
        connected(pass, w, a, b),
    ensures
        connected(pass, w, b, a),
{
    let p = choose|p: Seq<int>| #[trigger] is_walk(pass, w, p) && p[0] == a && p.last() == b;
    let len = p.len() as int;
    let q = Seq::new(p.len(), |i: int| p[len - 1 - i]);
    assert forall|i: int| 0 <= i < q.len() - 1 implies #[trigger] walk_step(pass, w, q, i) by {
        assert(walk_step(pass, w, p, len - 2 - i));
        lemma_adjacent_symmetric(w, pass.len() as int, p[len - 2 - i], p[len - 1 - i]);
    }
    assert forall|i: int| 0 <= i < q.len() implies 0 <= #[trigger] q[i] < pass.len() && pass[q[i]]
        == pass[q[0]] by {
        assert(0 <= p[len - 1 - i] < pass.len());
        assert(pass[p[len - 1]] == pass[p[0]]);
    }
    assert(is_walk(pass, w, q));
}

proof fn lemma_connected_trans(pass: Seq<bool>, w: int, a: int, b: int, c: int)
    requires
        connected(pass, w, a, b),
        connected(pass, w, b, c),
    ensures
        connected(pass, w, a, c),
{
    let p1 = choose|p: Seq<int>| #[trigger] is_walk(pass, w, p) && p[0] == a && p.last() == b;
    let p2 = choose|p: Seq<int>| #[trigger] is_walk(pass, w, p) && p[0] == b && p.last() == c;
    let l1 = p1.len() as int;
    let q = p1 + p2.subrange(1, p2.len() as int);
    assert forall|i: int| 0 <= i < q.len() implies 0 <= #[trigger] q[i] < pass.len() && pass[q[i]]
        == pass[q[0]] by {
        if i < l1 {
            assert(0 <= p1[i] < pass.len());
        } else {
            assert(q[i] == p2[i - l1 + 1]);
            assert(0 <= p2[i - l1 + 1] < pass.len());
            assert(pass[p1[l1 - 1]] == pass[p1[0]]);
        }
    }
    assert forall|i: int| 0 <= i < q.len() - 1 implies #[trigger] walk_step(pass, w, q, i) by {
        if i < l1 - 1 {
            assert(walk_step(pass, w, p1, i));
        } else {
            assert(walk_step(pass, w, p2, i - l1 + 1));
            assert(q[i + 1] == p2[i - l1 + 2]);
            if i == l1 - 1 {
                assert(q[i] == p2[0]);
            } else {
                assert(q[i] == p2[i - l1 + 1]);
            }
        }
    }
    assert(is_walk(pass, w, q));
    if p2.len() == 1 {
        assert(q.last() == p1.last());
    } else {
        assert(q.last() == p2.last());
    }
}

proof fn lemma_label_update(labels: Seq<usize>, i: int, v: usize, q: int, w: int, k: int)
    requires
        0 <= i < labels.len(),
        0 <= k <= labels.len(),
    ensures
        label_count(labels.update(i, v), q, k) == label_count(labels, q, k) + (if i < k {
            (if v == q { 1int } else { 0int }) - (if labels[i] == q { 1int } else { 0int })
        } else {
            0int
        }),
        label_col_sum(labels.update(i, v), q, w, k) == label_col_sum(labels, q, w, k) + (if i < k {
            (if v == q { i % w } else { 0int }) - (if labels[i] == q { i % w } else { 0int })
        } else {
            0int
        }),
        label_row_sum(labels.update(i, v), q, w, k) == label_row_sum(labels, q, w, k) + (if i < k {
            (if v == q { i / w } else { 0int }) - (if labels[i] == q { i / w } else { 0int })
        } else {
            0int
        }),
    decreases k,
{
    if k > 0 {
        lemma_label_update(labels, i, v, q, w, k - 1);
    }
}

proof fn lemma_label_bounds(labels: Seq<usize>, q: int, w: int, k: int)
    requires
        w > 0,
        0 <= k <= labels.len(),
    ensures
        0 <= label_count(labels, q, k) <= k,
        0 <= label_col_sum(labels, q, w, k) <= label_count(labels, q, k) * (w - 1),
    decreases k,
{
    if k > 0 {
        lemma_label_bounds(labels, q, w, k - 1);
        assert(0 <= (k - 1) % w < w) by {
            vstd::arithmetic::div_mod::lemma_mod_pos_bound(k - 1, w);
        }
        let c = label_count(labels, q, k - 1);
        assert((c + 1) * (w - 1) == c * (w - 1) + (w - 1)) by (nonlinear_arith);
    }
}


proof fn lemma_neighbor_coords(idx: int, w: int)
    requires
        w > 0,
        idx >= 0,
    ensures
        idx % w > 0 ==> (idx - 1) % w == idx % w - 1 && (idx - 1) / w == idx / w,
        idx % w < w - 1 ==> (idx + 1) % w == idx % w + 1 && (idx + 1) / w == idx / w,
        idx >= w ==> (idx - w) % w == idx % w && (idx - w) / w == idx / w - 1,
        (idx + w) % w == idx % w && (idx + w) / w == idx / w + 1,
        0 <= idx % w < w,
        idx % w <= idx,
{
    vstd::arithmetic::div_mod::lemma_fundamental_div_mod(idx, w);
    vstd::arithmetic::div_mod::lemma_mod_pos_bound(idx, w);
    assert(idx == (idx / w) * w + idx % w) by (nonlinear_arith)
        requires
            idx == w * (idx / w) + idx % w,
    ;
    assert(idx / w >= 0) by {
        vstd::arithmetic::div_mod::lemma_div_pos_is_pos(idx, w);
    }
    assert(idx % w <= idx) by (nonlinear_arith)
        requires
            idx == (idx / w) * w + idx % w,
            idx / w >= 0,
            w > 0,
    ;
    if idx % w > 0 {
        crate::map::lemma_row_col(idx - 1, w, idx / w, idx % w - 1);
    }
    if idx % w < w - 1 {
        crate::map::lemma_row_col(idx + 1, w, idx / w, idx % w + 1);
    }
    if idx >= w {
        assert(idx / w >= 1) by (nonlinear_arith)
            requires
                idx == (idx / w) * w + idx % w,
                idx >= w,
                idx % w < w,
        ;
        assert(idx - w == (idx / w - 1) * w + idx % w) by (nonlinear_arith)
            requires
                idx == (idx / w) * w + idx % w,
        ;
        crate::map::lemma_row_col(idx - w, w, idx / w - 1, idx % w);
    }
    assert(idx + w == (idx / w + 1) * w + idx % w) by (nonlinear_arith)
        requires
            idx == (idx / w) * w + idx % w,
    ;
    crate::map::lemma_row_col(idx + w, w, idx / w + 1, idx % w);
}

proof fn lemma_row_bound(idx: int, w: int, h: int)
    requires
        w > 0,
        0 <= idx < w * h,
    ensures
        0 <= idx / w < h,
        idx % w < w - 1 ==> idx + 1 < w * h,
{
    vstd::arithmetic::div_mod::lemma_fundamental_div_mod(idx, w);
    vstd::arithmetic::div_mod::lemma_mod_pos_bound(idx, w);
    assert(0 <= idx / w < h) by (nonlinear_arith)
        requires
            idx == w * (idx / w) + idx % w,
            0 <= idx % w < w,
            0 <= idx < w * h,
            w > 0,
    ;
    assert(idx % w < w - 1 ==> idx + 1 < w * h) by (nonlinear_arith)
        requires
            idx == w * (idx / w) + idx % w,
            0 <= idx % w < w,
            0 <= idx / w < h,
            w > 0,
    ;
}

proof fn lemma_label_absent(labels: Seq<usize>, q: int, w: int, k: int)
    requires
        0 <= k <= labels.len(),
        forall|t: int| 0 <= t < k ==> labels[t] != q,
    ensures
        label_count(labels, q, k) == 0,
        label_col_sum(labels, q, w, k) == 0,
        label_row_sum(labels, q, w, k) == 0,
    decreases k,
{
    if k > 0 {
        lemma_label_absent(labels, q, w, k - 1);
    }
}

proof fn lemma_center_bound(s: int, c: int, m: int)
    requires
        c >= 1,
        m >= 0,
        0 <= s <= c * m,
    ensures
        0 <= center_of(s, c) <= 32 * m + 16,
{
    let x = 32 * s + 16 * c;
    assert(0 <= x <= c * (32 * m + 16)) by (nonlinear_arith)
        requires
            c >= 1,
            m >= 0,
            0 <= s <= c * m,
            x == 32 * s + 16 * c,
    ;
    vstd::arithmetic::div_mod::lemma_div_is_ordered(x, c * (32 * m + 16), c);
    vstd::arithmetic::div_mod::lemma_div_pos_is_pos(x, c);
    assert(c * (32 * m + 16) / c == 32 * m + 16) by {
        vstd::arithmetic::div_mod::lemma_div_multiples_vanish(32 * m + 16, c);
    }
}

#[verifier::opaque]
/// State of the flood fill while region `r`, seeded at tile `start`, grows:
/// `stack` holds claimed tiles whose neighbours are still to be looked at,
/// `pending` the tile being expanded, and `count`, `sx`, `sy` the size and
/// coordinate sums of the region so far.
spec fn fill_inv(
    pass: Seq<bool>,
    w: int,
    labels: Seq<usize>,
    stack: Seq<usize>,
    seeds: Seq<int>,
    regs: Seq<Region>,
    r: int,
    start: int,
    pending: int,
    count: int,
    sx: int,
    sy: int,
) -> bool {
    let n = pass.len() as int;
    &&& labels.len() == n
    &&& n < UNASSIGNED
    &&& 0 <= r <= start < n
    &&& regs.len() == r
    &&& seeds.len() == r + 1
    &&& seeds[r] == start
    &&& forall|t: int| 0 <= t < start ==> #[trigger] labels[t] < r
    &&& forall|t: int|
        0 <= t < n && #[trigger] labels[t] != UNASSIGNED ==> labels[t] <= r && seeds[labels[t] as int]
            <= t && pass[t] == pass[seeds[labels[t] as int]] && connected(
            pass,
            w,
            seeds[labels[t] as int],
            t,
        )
    &&& forall|q: int| 0 <= q <= r ==> 0 <= #[trigger] seeds[q] < n && labels[seeds[q]] == q
    &&& forall|q: int| 0 <= q < r ==> #[trigger] seeds[q] < seeds[q + 1]
    &&& forall|a: int, b: int|
        #[trigger] adjacent(w, n, a, b) && pass[a] == pass[b] && labels[a] < r ==> labels[b]
            == labels[a]
    &&& forall|t: int|
        0 <= t < n && #[trigger] labels[t] == r ==> stack.contains(t as usize) || t == pending
            || closed_nonu(pass, w, labels, t)
    &&& forall|i: int| 0 <= i < stack.len() ==> #[trigger] stack[i] < n && labels[stack[i] as int] == r
    &&& count == label_count(labels, r, n)
    &&& sx == label_col_sum(labels, r, w, n)
    &&& sy == label_row_sum(labels, r, w, n)
    &&& forall|q: int| 0 <= q < r ==> region_stats(#[trigger] regs[q], q, pass, w, labels, seeds[q])
}

#[verifier::opaque]
/// State of the flood fill between regions: every tile before `start` is
/// labelled, each labelled tile is joined to its region's seed, and labelled
/// tiles agree with their neighbours of the same walkability.
spec fn outer_inv(pass: Seq<bool>, w: int, labels: Seq<usize>, seeds: Seq<int>, regs: Seq<Region>, start: int) -> bool {
    let n = pass.len() as int;
    let r = regs.len() as int;
    &&& labels.len() == n
    &&& n < UNASSIGNED
    &&& 0 <= r <= start <= n
    &&& seeds.len() == r
    &&& forall|t: int| 0 <= t < start ==> #[trigger] labels[t] != UNASSIGNED
    &&& forall|t: int|
        0 <= t < n && #[trigger] labels[t] != UNASSIGNED ==> labels[t] < r && seeds[labels[t] as int]
            <= t && pass[t] == pass[seeds[labels[t] as int]] && connected(
            pass,
            w,
            seeds[labels[t] as int],
            t,
        )
    &&& forall|q: int| 0 <= q < r ==> 0 <= #[trigger] seeds[q] < start && labels[seeds[q]] == q
    &&& forall|q: int| 0 <= q < r - 1 ==> #[trigger] seeds[q] < seeds[q + 1]
    &&& forall|a: int, b: int|
        #[trigger] adjacent(w, n, a, b) && pass[a] == pass[b] && labels[a] != UNASSIGNED ==> labels[b]
            == labels[a]
    &&& forall|q: int| 0 <= q < r ==> region_stats(#[trigger] regs[q], q, pass, w, labels, seeds[q])
}

proof fn lemma_claim(
    pass: Seq<bool>,
    w: int,
    labels: Seq<usize>,
    stack: Seq<usize>,
    seeds: Seq<int>,
    regs: Seq<Region>,
    r: int,
    start: int,
    idx: int,
    count: int,
    sx: int,
    sy: int,
    ni: int,
)
    requires
        w > 0,
        fill_inv(pass, w, labels, stack, seeds, regs, r, start, idx, count, sx, sy),
        0 <= idx < pass.len(),
        labels[idx] == r,
        adjacent(w, pass.len() as int, idx, ni),
        labels[ni] == UNASSIGNED,
        pass[ni] == pass[start],
    ensures
        fill_inv(
            pass,
            w,
            labels.update(ni, r as usize),
            stack.push(ni as usize),
            seeds,
            regs,
            r,
            start,
            idx,
            count + 1,
            sx + ni % w,
            sy + ni / w,
        ),
{
    reveal(fill_inv);
    let n = pass.len() as int;
    let l2 = labels.update(ni, r as usize);
    let s2 = stack.push(ni as usize);
    assert(connected(pass, w, start, idx));
    lemma_connected_extend(pass, w, start, idx, ni);
    assert(ni >= start) by {
        if ni < start {
            assert(labels[ni] < r);
        }
    }
    assert forall|t: int| 0 <= t < n && #[trigger] l2[t] != UNASSIGNED implies l2[t] <= r
        && seeds[l2[t] as int] <= t && pass[t] == pass[seeds[l2[t] as int]] && connected(
        pass,
        w,
        seeds[l2[t] as int],
        t,
    ) by {
        if t != ni {
            assert(labels[t] != UNASSIGNED);
        }
    }
    assert forall|a: int, b: int|
        #[trigger] adjacent(w, n, a, b) && pass[a] == pass[b] && l2[a] < r implies l2[b]
        == l2[a] by {
        assert(labels[a] < r);
        assert(labels[b] == labels[a]);
    }
    assert forall|t: int| 0 <= t < n && #[trigger] l2[t] == r implies s2.contains(t as usize)
        || t == idx || closed_nonu(pass, w, l2, t) by {
        if t == ni {
            assert(s2[s2.len() - 1] == ni as usize);
        } else {
            assert(labels[t] == r);
            if stack.contains(t as usize) {
                let j = choose|j: int| 0 <= j < stack.len() && stack[j] == t as usize;
                assert(s2[j] == t as usize);
            } else if t != idx {
                assert(closed_nonu(pass, w, labels, t));
                assert forall|b: int|
                    #[trigger] adjacent(w, n, t, b) && pass[b] == pass[t] implies l2[b]
                    != UNASSIGNED by {
                    assert(labels[b] != UNASSIGNED);
                }
            }
        }
    }
    assert forall|i: int| 0 <= i < s2.len() implies #[trigger] s2[i] < n && l2[s2[i] as int] == r by {
        if i < stack.len() {
            assert(s2[i] == stack[i]);
            assert(stack[i] < n && labels[stack[i] as int] == r);
        } else {
            assert(s2[i] == ni as usize);
        }
    }
    lemma_label_update(labels, ni, r as usize, r, w, n);
    assert forall|q: int| 0 <= q < r implies region_stats(#[trigger] regs[q], q, pass, w, l2, seeds[q]) by {
        lemma_label_update(labels, ni, r as usize, q, w, n);
    }
    assert forall|t: int| 0 <= t < start implies #[trigger] l2[t] < r by {
        assert(labels[t] < r);
    }
    assert forall|q: int| 0 <= q <= r implies 0 <= #[trigger] seeds[q] < n && l2[seeds[q]] == q by {
        assert(labels[seeds[q]] == q);
    }
}

/// Claims tile `ni` for region `r` if it is unlabelled and has walkability `walk`.
fn claim(labels: &mut Vec<usize>, stack: &mut Vec<usize>, pass: &Vec<bool>, ni: usize, r: usize, walk: bool) -> (claimed: bool)
    requires
        ni < old(labels)@.len(),
        old(labels)@.len() == pass@.len(),
    ensures
        claimed == (old(labels)@[ni as int] == UNASSIGNED && pass@[ni as int] == walk),
        claimed ==> final(labels)@ == old(labels)@.update(ni as int, r) && final(stack)@ == old(
            stack,
        )@.push(ni),
        !claimed ==> final(labels)@ == old(labels)@ && final(stack)@ == old(stack)@,
{
    if labels[ni] == UNASSIGNED && pass[ni] == walk {
        labels.set(ni, r);
        stack.push(ni);
        true
    } else {
        false
    }
}


/// The labelling of a grid's tiles into `nreg` regions is exactly its
/// partition into maximal 4-connected areas of one walkability, numbered in
/// the order in which a row-major scan first meets them.
pub open spec fn is_region_labelling(pass: Seq<bool>, w: int, labels: Seq<usize>, nreg: int) -> bool {
    let n = pass.len() as int;
    &&& labels.len() == n
    &&& forall|t: int| 0 <= t < n ==> #[trigger] labels[t] < nreg
    &&& forall|a: int, b: int|
        #[trigger] adjacent(w, n, a, b) && pass[a] == pass[b] ==> labels[a] == labels[b]
    &&& forall|a: int, b: int|
        0 <= a < n && 0 <= b < n && #[trigger] labels[a] == #[trigger] labels[b] ==> connected(
            pass,
            w,
            a,
            b,
        )
    &&& nreg > 0 ==> exists|t: int| 0 <= t < n && #[trigger] labels[t] == nreg - 1
    &&& forall|t: int|
        0 <= t < n && #[trigger] labels[t] > 0 ==> exists|t2: int|
            0 <= t2 < t && #[trigger] labels[t2] == labels[t] - 1
}

/// Region `q`'s own fields agree with the labelling: its index, the
/// walkability of its tiles, their number and their pixel centre.
pub open spec fn region_fields(reg: Region, q: int, pass: Seq<bool>, w: int, labels: Seq<usize>) -> bool {
    let n = pass.len() as int;
    &&& reg.index == q
    &&& forall|t: int| 0 <= t < n && #[trigger] labels[t] == q ==> pass[t] == reg.walkable
    &&& reg.tile_count == label_count(labels, q, n)
    &&& reg.center_x == center_of(label_col_sum(labels, q, w, n), label_count(labels, q, n))
    &&& reg.center_y == center_of(label_row_sum(labels, q, w, n), label_count(labels, q, n))
}

proof fn lemma_labels_connected(pass: Seq<bool>, w: int, labels: Seq<usize>, seeds: Seq<int>, a: int, b: int)
    requires
        w > 0,
        0 <= a < pass.len(),
        0 <= b < pass.len(),
        labels[a] == labels[b],
        connected(pass, w, seeds[labels[a] as int], a),
        connected(pass, w, seeds[labels[b] as int], b),
    ensures
        connected(pass, w, a, b),
{
    lemma_connected_reverse(pass, w, seeds[labels[a] as int], a);
    lemma_connected_trans(pass, w, a, seeds[labels[a] as int], b);
}


/// Claims neighbour `ni` (at column `col`, row `row`) of the tile `idx` being
/// expanded, when it is unlabelled and shares the region's walkability, and
/// adds it to the region's size and coordinate sums.
fn try_grow(
    labels: &mut Vec<usize>,
    stack: &mut Vec<usize>,
    count: &mut usize,
    sum_x: &mut i64,
    sum_y: &mut i64,
    pass: &Vec<bool>,
    ni: usize,
    col: usize,
    row: usize,
    r: usize,
    walk: bool,
    Ghost(w): Ghost<int>,
    Ghost(seeds): Ghost<Seq<int>>,
    Ghost(regs): Ghost<Seq<Region>>,
    Ghost(start): Ghost<int>,
    Ghost(idx): Ghost<int>,
)
    requires
        w > 0,
        fill_inv(pass@, w, old(labels)@, old(stack)@, seeds, regs, r as int, start, idx, *old(count) as int, *old(sum_x) as int, *old(sum_y) as int),
        0 <= idx < pass@.len(),
        old(labels)@[idx] == r,
        adjacent(w, pass@.len() as int, idx, ni as int),
        col == (ni as int) % w,
        row == (ni as int) / w,
        col <= 0xFFFF,
        row <= 0xFFFF,
        walk == pass@[start],
        1 <= *old(count) <= pass@.len(),
        pass@.len() <= 0xFFFF * 0xFFFF,
        0 <= *old(sum_x) <= *old(count) * 0xFFFF,
        0 <= *old(sum_y) <= *old(count) * 0xFFFF,
    ensures
        fill_inv(pass@, w, final(labels)@, final(stack)@, seeds, regs, r as int, start, idx, *final(count) as int, *final(sum_x) as int, *final(sum_y) as int),
        1 <= *final(count) <= pass@.len(),
        0 <= *final(sum_x) <= *final(count) * 0xFFFF,
        0 <= *final(sum_y) <= *final(count) * 0xFFFF,
        *final(count) as int * 5 - final(stack)@.len() >= *old(count) as int * 5 - old(stack)@.len(),
        forall|t: int| 0 <= t < pass@.len() && old(labels)@[t] != UNASSIGNED ==> #[trigger] final(labels)@[t] == old(labels)@[t],
        pass@[ni as int] == walk ==> final(labels)@[ni as int] != UNASSIGNED,
        final(labels)@[idx] == r,
{
    let ghost l1 = labels@;
    let ghost s1 = stack@;
    proof {
        reveal(fill_inv);
    }
    if claim(labels, stack, pass, ni, r, walk) {
        proof {
            lemma_claim(pass@, w, l1, s1, seeds, regs, r as int, start, idx, *count as int, *sum_x as int, *sum_y as int, ni as int);
            lemma_label_bounds(labels@, r as int, w, pass@.len() as int);
            reveal(fill_inv);
        }
        *count = *count + 1;
        *sum_x = *sum_x + col as i64;
        *sum_y = *sum_y + row as i64;
    }
}

proof fn lemma_skip_tile(pass: Seq<bool>, w: int, labels: Seq<usize>, seeds: Seq<int>, regs: Seq<Region>, start: int)
    requires
        outer_inv(pass, w, labels, seeds, regs, start),
        0 <= start < pass.len(),
        labels[start] != UNASSIGNED,
    ensures
        outer_inv(pass, w, labels, seeds, regs, start + 1),
{
    reveal(outer_inv);
}

proof fn lemma_start_region(pass: Seq<bool>, w: int, labels: Seq<usize>, seeds: Seq<int>, regs: Seq<Region>, start: int)
    requires
        w > 0,
        outer_inv(pass, w, labels, seeds, regs, start),
        0 <= start < pass.len(),
        labels[start] == UNASSIGNED,
    ensures
        fill_inv(
            pass,
            w,
            labels.update(start, regs.len() as usize),
            seq![start as usize],
            seeds.push(start),
            regs,
            regs.len() as int,
            start,
            -1,
            1,
            start % w,
            start / w,
        ),
{
    reveal(outer_inv);
    reveal(fill_inv);
    let n = pass.len() as int;
    let r = regs.len() as int;
    let l0 = labels;
    let l1 = labels.update(start, r as usize);
    let sd = seeds.push(start);
    let st = seq![start as usize];
    lemma_connected_refl(pass, w, start);
    assert forall|t: int| 0 <= t < n implies #[trigger] l0[t] != r by {
        if l0[t] != UNASSIGNED {
            assert(l0[t] < r);
        }
    }
    lemma_label_absent(l0, r, w, n);
    lemma_label_update(l0, start, r as usize, r, w, n);
    assert forall|q: int| 0 <= q < r implies region_stats(#[trigger] regs[q], q, pass, w, l1, sd[q]) by {
        lemma_label_update(l0, start, r as usize, q, w, n);
        assert(sd[q] == seeds[q]);
    }
    assert forall|t: int|
        0 <= t < n && #[trigger] l1[t] != UNASSIGNED implies l1[t] <= r && sd[l1[t] as int] <= t
        && pass[t] == pass[sd[l1[t] as int]] && connected(pass, w, sd[l1[t] as int], t) by {
        if t != start {
            assert(l0[t] != UNASSIGNED);
            assert(sd[l0[t] as int] == seeds[l0[t] as int]);
        }
    }
    assert forall|a: int, b: int|
        #[trigger] adjacent(w, n, a, b) && pass[a] == pass[b] && l1[a] < r implies l1[b] == l1[a] by {
        assert(l0[a] != UNASSIGNED);
        assert(l0[b] == l0[a]);
    }
    assert forall|t: int| 0 <= t < n && #[trigger] l1[t] == r implies st.contains(t as usize) || t
        == -1 || closed_nonu(pass, w, l1, t) by {
        assert(t == start);
        assert(st[0] == start as usize);
    }
    assert forall|q: int| 0 <= q <= r implies 0 <= #[trigger] sd[q] < n && l1[sd[q]] == q by {
        if q < r {
            assert(sd[q] == seeds[q]);
            assert(l0[seeds[q]] == q);
        }
    }
    assert forall|q: int| 0 <= q < r implies #[trigger] sd[q] < sd[q + 1] by {
        assert(sd[q] == seeds[q]);
        if q + 1 < r {
            assert(seeds[q] < seeds[q + 1]);
        }
    }
    assert forall|t: int| 0 <= t < start implies #[trigger] l1[t] < r by {
        assert(l0[t] != UNASSIGNED);
    }
}

proof fn lemma_pop(
    pass: Seq<bool>,
    w: int,
    labels: Seq<usize>,
    stack: Seq<usize>,
    seeds: Seq<int>,
    regs: Seq<Region>,
    r: int,
    start: int,
    count: int,
    sx: int,
    sy: int,
)
    requires
        fill_inv(pass, w, labels, stack, seeds, regs, r, start, -1, count, sx, sy),
        stack.len() > 0,
    ensures
        fill_inv(pass, w, labels, stack.drop_last(), seeds, regs, r, start, stack.last() as int, count, sx, sy),
        stack.last() < pass.len(),
        labels[stack.last() as int] == r,
        pass[stack.last() as int] == pass[start],
{
    reveal(fill_inv);
    let n = pass.len() as int;
    let idx = stack.last();
    let s2 = stack.drop_last();
    assert(stack[stack.len() - 1] == idx);
    assert forall|t: int| 0 <= t < n && #[trigger] labels[t] == r implies s2.contains(t as usize) || t
        == idx || closed_nonu(pass, w, labels, t) by {
        if stack.contains(t as usize) && t != idx {
            let j = choose|j: int| 0 <= j < stack.len() && stack[j] == t as usize;
            assert(j < stack.len() - 1);
            assert(s2[j] == t as usize);
        }
    }
    assert forall|i: int| 0 <= i < s2.len() implies #[trigger] s2[i] < n && labels[s2[i] as int] == r by {
        assert(s2[i] == stack[i]);
    }
}

proof fn lemma_expanded(
    pass: Seq<bool>,
    w: int,
    labels: Seq<usize>,
    stack: Seq<usize>,
    seeds: Seq<int>,
    regs: Seq<Region>,
    r: int,
    start: int,
    idx: int,
    count: int,
    sx: int,
    sy: int,
)
    requires
        fill_inv(pass, w, labels, stack, seeds, regs, r, start, idx, count, sx, sy),
        closed_nonu(pass, w, labels, idx),
    ensures
        fill_inv(pass, w, labels, stack, seeds, regs, r, start, -1, count, sx, sy),
{
    reveal(fill_inv);
}

proof fn lemma_fill_facts(
    pass: Seq<bool>,
    w: int,
    labels: Seq<usize>,
    stack: Seq<usize>,
    seeds: Seq<int>,
    regs: Seq<Region>,
    r: int,
    start: int,
    pending: int,
    count: int,
    sx: int,
    sy: int,
)
    requires
        fill_inv(pass, w, labels, stack, seeds, regs, r, start, pending, count, sx, sy),
    ensures
        labels.len() == pass.len(),
        count == label_count(labels, r, pass.len() as int),
        r == regs.len(),
        0 <= start < pass.len(),
{
    reveal(fill_inv);
}

proof fn lemma_finish_region(
    pass: Seq<bool>,
    w: int,
    labels: Seq<usize>,
    stack: Seq<usize>,
    seeds: Seq<int>,
    regs: Seq<Region>,
    r: int,
    start: int,
    count: int,
    sx: int,
    sy: int,
    reg: Region,
)
    requires
        w > 0,
        fill_inv(pass, w, labels, stack, seeds, regs, r, start, -1, count, sx, sy),
        stack.len() == 0,
        count >= 1,
        reg.index == r,
        reg.walkable == pass[start],
        reg.tile_count == count,
        reg.center_x == center_of(sx, count),
        reg.center_y == center_of(sy, count),
    ensures
        outer_inv(pass, w, labels, seeds, regs.push(reg), start + 1),
{
    reveal(fill_inv);
    reveal(outer_inv);
    let n = pass.len() as int;
    let rs = regs.push(reg);
    assert forall|a: int, b: int|
        #[trigger] adjacent(w, n, a, b) && pass[a] == pass[b] && labels[a] != UNASSIGNED implies labels[b]
        == labels[a] by {
        if labels[a] == r {
            assert(closed_nonu(pass, w, labels, a));
            assert(labels[b] != UNASSIGNED);
            if labels[b] < r {
                lemma_adjacent_symmetric(w, n, a, b);
            }
        }
    }
    assert forall|q: int| 0 <= q <= r implies region_stats(#[trigger] rs[q], q, pass, w, labels, seeds[q]) by {
        if q < r {
            assert(rs[q] == regs[q]);
        }
    }
    assert forall|t: int| 0 <= t < start + 1 implies #[trigger] labels[t] != UNASSIGNED by {
        if t < start {
            assert(labels[t] < r);
        }
    }
    assert forall|q: int| 0 <= q < r + 1 implies 0 <= #[trigger] seeds[q] < start + 1 && labels[seeds[q]] == q by {
        if q < r {
            assert(seeds[q] < seeds[q + 1]);
            assert(seeds[q] < seeds[r]) by {
                if q + 1 < r {
                    assert forall|k: int| q < k <= r implies seeds[q] < #[trigger] seeds[k] by {
                        lemma_seeds_increase(seeds, q, k);
                    }
                }
            }
        }
    }
}

proof fn lemma_seeds_increase(seeds: Seq<int>, q: int, k: int)
    requires
        0 <= q < k < seeds.len(),
        forall|i: int| 0 <= i < seeds.len() - 1 ==> #[trigger] seeds[i] < seeds[i + 1],
    ensures
        seeds[q] < seeds[k],
    decreases k - q,
{
    if k > q + 1 {
        lemma_seeds_increase(seeds, q, k - 1);
        assert(seeds[k - 1] < seeds[k]);
    }
}

proof fn lemma_outer_done(pass: Seq<bool>, w: int, labels: Seq<usize>, seeds: Seq<int>, regs: Seq<Region>)
    requires
        pass.len() > 0 ==> w > 0,
        outer_inv(pass, w, labels, seeds, regs, pass.len() as int),
    ensures
        is_region_labelling(pass, w, labels, regs.len() as int),
        forall|q: int| 0 <= q < regs.len() ==> region_fields(#[trigger] regs[q], q, pass, w, labels),
{
    reveal(outer_inv);
    let n = pass.len() as int;
    let r = regs.len() as int;
    assert forall|a: int, b: int|
        0 <= a < n && 0 <= b < n && #[trigger] labels[a] == #[trigger] labels[b] implies connected(
        pass,
        w,
        a,
        b,
    ) by {
        assert(labels[a] != UNASSIGNED);
        assert(labels[b] != UNASSIGNED);
        lemma_labels_connected(pass, w, labels, seeds, a, b);
    }
    if r > 0 {
        assert(labels[seeds[r - 1]] == r - 1);
    }
    assert forall|t: int| 0 <= t < n && #[trigger] labels[t] > 0 implies exists|t2: int|
        0 <= t2 < t && #[trigger] labels[t2] == labels[t] - 1 by {
        assert(labels[t] != UNASSIGNED);
        let q = labels[t] as int;
        assert(seeds[q - 1] < seeds[q]);
        assert(labels[seeds[q - 1]] == q - 1);
    }
    assert forall|q: int| 0 <= q < r implies region_fields(#[trigger] regs[q], q, pass, w, labels) by {
        assert(region_stats(regs[q], q, pass, w, labels, seeds[q]));
        assert forall|t: int| 0 <= t < n && #[trigger] labels[t] == q implies pass[t] == regs[q].walkable by {
            assert(labels[t] != UNASSIGNED);
        }
    }
    assert forall|t: int| 0 <= t < n implies #[trigger] labels[t] < r by {
        assert(labels[t] != UNASSIGNED);
    }
}

/// Labels the tiles of a `w`x`h` grid with walkability `pass` by flood fill:
/// each unlabelled tile, in row-major order, seeds a new region that grows
/// over neighbouring tiles of the same walkability.
fn flood_fill(pass: &Vec<bool>, w: usize, h: usize) -> (res: (Vec<usize>, Vec<Region>))
    requires
        pass@.len() == w * h,
        w <= 0xFFFF,
        h <= 0xFFFF,
    ensures
        is_region_labelling(pass@, w as int, res.0@, res.1@.len() as int),
        forall|q: int|
            0 <= q < res.1@.len() ==> region_fields(#[trigger] res.1@[q], q, pass@, w as int, res.0@),
        forall|q: int|
            0 <= q < res.1@.len() ==> (#[trigger] res.1@[q]).group == 0 && res.1@[q].neighbors@.len()
                == 0,
{
    let n = pass.len();
    let ghost ps = pass@;
    let ghost wi = w as int;
    assert(n <= 0xFFFF * 0xFFFF) by (nonlinear_arith)
        requires
            n == w * h,
            w <= 0xFFFF,
            h <= 0xFFFF,
    ;
    let mut labels: Vec<usize> = Vec::new();
    while labels.len() < n
        invariant
            labels.len() <= n,
            forall|t: int| 0 <= t < labels.len() ==> #[trigger] labels@[t] == UNASSIGNED,
        decreases n - labels.len(),
    {
        labels.push(UNASSIGNED);
    }
    let mut regions: Vec<Region> = Vec::new();
    let ghost mut seeds: Seq<int> = Seq::empty();
    proof {
        reveal(outer_inv);
    }
    let mut start: usize = 0;
    while start < n
        invariant
            n == pass@.len(),
            ps == pass@,
            wi == w,
            n == w * h,
            n <= 0xFFFF * 0xFFFF,
            w <= 0xFFFF,
            h <= 0xFFFF,
            outer_inv(ps, wi, labels@, seeds, regions@, start as int),
            forall|q: int|
                0 <= q < regions@.len() ==> (#[trigger] regions@[q]).group == 0
                    && regions@[q].neighbors@.len() == 0,
        decreases n - start,
    {
        proof {
            reveal(outer_inv);
        }
        if labels[start] != UNASSIGNED {
            proof {
                lemma_skip_tile(ps, wi, labels@, seeds, regions@, start as int);
            }
            start = start + 1;
            continue;
        }
        assert(w > 0) by (nonlinear_arith)
            requires
                start < n,
                n == w * h,
        ;
        let r = regions.len();
        let walk = pass[start];
        proof {
            lemma_start_region(ps, wi, labels@, seeds, regions@, start as int);
            lemma_neighbor_coords(start as int, wi);
            lemma_row_bound(start as int, wi, h as int);
            seeds = seeds.push(start as int);
        }
        labels.set(start, r);
        let mut stack: Vec<usize> = Vec::new();
        stack.push(start);
        let mut count: usize = 1;
        let mut sum_x: i64 = (start % w) as i64;
        let mut sum_y: i64 = (start / w) as i64;
        proof {
            assert(stack@ == seq![start]);
        }
        while stack.len() > 0
            invariant
                n == pass@.len(),
                ps == pass@,
                wi == w,
                w > 0,
                n == w * h,
                n <= 0xFFFF * 0xFFFF,
                w <= 0xFFFF,
                h <= 0xFFFF,
                r == regions.len(),
                walk == ps[start as int],
                fill_inv(ps, wi, labels@, stack@, seeds, regions@, r as int, start as int, -1, count as int, sum_x as int, sum_y as int),
                1 <= count <= n,
                0 <= sum_x <= count * 0xFFFF,
                0 <= sum_y <= count * 0xFFFF,
                forall|q: int|
                    0 <= q < regions@.len() ==> (#[trigger] regions@[q]).group == 0
                        && regions@[q].neighbors@.len() == 0,
            decreases (n - count) * 5 + stack.len(),
        {
            let ghost st0 = stack@;
            proof {
                lemma_pop(ps, wi, labels@, st0, seeds, regions@, r as int, start as int, count as int, sum_x as int, sum_y as int);
                lemma_fill_facts(ps, wi, labels@, st0, seeds, regions@, r as int, start as int, -1, count as int, sum_x as int, sum_y as int);
            }
            let idx = stack.pop().unwrap();
            proof {
                assert(stack@ == st0.drop_last());
                lemma_neighbor_coords(idx as int, wi);
                lemma_row_bound(idx as int, wi, h as int);
            }
            let tx = idx % w;
            let ty = idx / w;
            let ghost l_before = labels@;
            if tx > 0 {
                try_grow(&mut labels, &mut stack, &mut count, &mut sum_x, &mut sum_y, pass, idx - 1, tx - 1, ty, r, walk, Ghost(wi), Ghost(seeds), Ghost(regions@), Ghost(start as int), Ghost(idx as int));
            }
            let ghost l_a = labels@;
            if tx + 1 < w {
                try_grow(&mut labels, &mut stack, &mut count, &mut sum_x, &mut sum_y, pass, idx + 1, tx + 1, ty, r, walk, Ghost(wi), Ghost(seeds), Ghost(regions@), Ghost(start as int), Ghost(idx as int));
            }
            let ghost l_b = labels@;
            if idx >= w {
                try_grow(&mut labels, &mut stack, &mut count, &mut sum_x, &mut sum_y, pass, idx - w, tx, ty - 1, r, walk, Ghost(wi), Ghost(seeds), Ghost(regions@), Ghost(start as int), Ghost(idx as int));
            }
            let ghost l_c = labels@;
            if idx + w < n {
                try_grow(&mut labels, &mut stack, &mut count, &mut sum_x, &mut sum_y, pass, idx + w, tx, ty + 1, r, walk, Ghost(wi), Ghost(seeds), Ghost(regions@), Ghost(start as int), Ghost(idx as int));
            }
            proof {
                let ls = labels@;
                assert forall|b: int|
                    #[trigger] adjacent(wi, n as int, idx as int, b) && ps[b] == ps[idx as int] implies ls[b]
                    != UNASSIGNED by {
                    if b + 1 == idx && tx > 0 {
                        assert(l_a[b] != UNASSIGNED);
                    } else if b == idx + 1 && tx + 1 < w {
                        assert(l_b[b] != UNASSIGNED);
                    } else if b + w == idx {
                        assert(l_c[b] != UNASSIGNED);
                    } else {
                        assert(b == idx + w);
                    }
                }
                lemma_expanded(ps, wi, labels@, stack@, seeds, regions@, r as int, start as int, idx as int, count as int, sum_x as int, sum_y as int);
            }
        }
        proof {
            lemma_center_bound(sum_x as int, count as int, 0xFFFF);
            lemma_center_bound(sum_y as int, count as int, 0xFFFF);
        }
        let cx = ((sum_x * 32 + 16 * (count as i64)) / (count as i64)) as i32;
        let cy = ((sum_y * 32 + 16 * (count as i64)) / (count as i64)) as i32;
        let reg = Region {
            index: r,
            walkable: walk,
            center_x: cx,
            center_y: cy,
            tile_count: count,
            group: 0,
            neighbors: Vec::new(),
        };
        proof {
            lemma_finish_region(ps, wi, labels@, stack@, seeds, regions@, r as int, start as int, count as int, sum_x as int, sum_y as int, reg);
        }
        regions.push(reg);
        start = start + 1;
    }
    proof {
        if n > 0 {
            assert(w > 0) by (nonlinear_arith)
                requires
                    n > 0,
                    n == w * h,
            ;
        }
        lemma_outer_done(ps, wi, labels@, seeds, regions@);
    }
    (labels, regions)
}


/// Strictly increasing: sorted with no repeats.
pub open spec fn strictly_sorted(s: Seq<usize>) -> bool {
    forall|i: int, j: int| 0 <= i < j < s.len() ==> s[i] < s[j]
}

/// Some tile labelled `i` is a grid neighbour of some tile labelled `j`.
pub open spec fn touches(w: int, labels: Seq<usize>, i: int, j: int) -> bool {
    exists|a: int, b: int|
        #[trigger] adjacent(w, labels.len() as int, a, b) && labels[a] == i && labels[b] == j
}

/// Which of the four neighbour directions (left, right, up, down) leads from
/// tile `a` to tile `b`, in the order the scan looks at them.
spec fn dir_of(w: int, a: int, b: int) -> int {
    if b + 1 == a && a % w != 0 {
        0
    } else if b == a + 1 && a % w != w - 1 {
        1
    } else if b + w == a {
        2
    } else {
        3
    }
}

/// The scan of tiles `0..k`, plus the first `d` directions of tile `k`, has
/// looked at the neighbour pair `(a, b)`.
spec fn pair_seen(w: int, n: int, k: int, d: int, a: int, b: int) -> bool {
    adjacent(w, n, a, b) && (a < k || (a == k && dir_of(w, a, b) < d))
}

/// The neighbour lists record exactly the region pairs seen so far.
spec fn nbr_inv(w: int, labels: Seq<usize>, nbrs: Seq<Vec<usize>>, k: int, d: int) -> bool {
    let n = labels.len() as int;
    &&& forall|i: int| 0 <= i < nbrs.len() ==> strictly_sorted(#[trigger] nbrs[i]@)
    &&& forall|i: int, j: usize|
        0 <= i < nbrs.len() ==> (#[trigger] nbrs[i]@.contains(j) <==> (j != i && exists|a: int, b: int|
            #[trigger] pair_seen(w, n, k, d, a, b) && labels[a] == i && labels[b] == j))
}

/// Inserts `x` into the strictly increasing `v`, unless it is already there.
fn insert_sorted(v: &mut Vec<usize>, x: usize)
    requires
        strictly_sorted(old(v)@),
    ensures
        strictly_sorted(final(v)@),
        forall|y: usize| #[trigger] final(v)@.contains(y) <==> (old(v)@.contains(y) || y == x),
{
    let mut i: usize = 0;
    while i < v.len()
        invariant
            i <= v.len(),
            v@ == old(v)@,
            strictly_sorted(v@),
            forall|k: int| 0 <= k < i ==> #[trigger] v@[k] < x,
        ensures
            i <= v.len(),
            v@ == old(v)@,
            forall|k: int| 0 <= k < i ==> #[trigger] v@[k] < x,
            i < v.len() ==> v@[i as int] > x,
        decreases v.len() - i,
    {
        if v[i] == x {
            return;
        }
        if v[i] > x {
            break;
        }
        i = i + 1;
    }
    let ghost old_v = v@;
    v.insert(i, x);
    proof {
        assert forall|a: int, b: int| 0 <= a < b < v@.len() implies v@[a] < v@[b] by {
            if b < i {
            } else if a < i && b == i {
            } else if a < i {
                assert(v@[b] == old_v[b - 1]);
                if i < old_v.len() {
                    assert(x < old_v[i as int]);
                    assert(old_v[i as int] <= old_v[b - 1]);
                }
            } else if a == i {
                assert(v@[b] == old_v[b - 1]);
                assert(x < old_v[i as int]);
            } else {
                assert(v@[a] == old_v[a - 1]);
                assert(v@[b] == old_v[b - 1]);
            }
        }
        assert forall|y: usize| #[trigger] v@.contains(y) <==> (old_v.contains(y) || y == x) by {
            if old_v.contains(y) {
                let k = choose|k: int| 0 <= k < old_v.len() && old_v[k] == y;
                if k < i {
                    assert(v@[k] == y);
                } else {
                    assert(v@[k + 1] == y);
                }
            }
            if v@.contains(y) {
                let k = choose|k: int| 0 <= k < v@.len() && v@[k] == y;
                if k < i {
                    assert(old_v[k] == y);
                } else if k > i {
                    assert(old_v[k - 1] == y);
                }
            }
            if y == x {
                assert(v@[i as int] == x);
            }
        }
    }
}


proof fn lemma_dir_unique(w: int, n: int, a: int, b: int, c: int)
    requires
        w > 0,
        adjacent(w, n, a, b),
        adjacent(w, n, a, c),
        dir_of(w, a, b) == dir_of(w, a, c),
    ensures
        b == c,
{
}

/// Records that tile `a` (the tile `k` being scanned) neighbours tile `b`,
/// the neighbour in direction `d`.
fn note_pair(
    nbrs: &mut Vec<Vec<usize>>,
    labels: &Vec<usize>,
    a: usize,
    b: usize,
    Ghost(w): Ghost<int>,
    Ghost(d): Ghost<int>,
)
    requires
        w > 0,
        nbr_inv(w, labels@, old(nbrs)@, a as int, d),
        adjacent(w, labels@.len() as int, a as int, b as int),
        dir_of(w, a as int, b as int) == d,
        forall|t: int| 0 <= t < labels@.len() ==> #[trigger] labels@[t] < old(nbrs)@.len(),
    ensures
        nbr_inv(w, labels@, final(nbrs)@, a as int, d + 1),
        final(nbrs)@.len() == old(nbrs)@.len(),
{
    let ghost n = labels@.len() as int;
    let ghost k = a as int;
    let ri = labels[a];
    let rj = labels[b];
    let ghost nb0 = nbrs@;
    proof {
        assert(pair_seen(w, n, k, d + 1, a as int, b as int));
        assert forall|a2: int, b2: int| #[trigger] pair_seen(w, n, k, d + 1, a2, b2) implies pair_seen(
            w,
            n,
            k,
            d,
            a2,
            b2,
        ) || (a2 == a && b2 == b) by {
            if a2 == k && dir_of(w, a2, b2) == d {
                lemma_dir_unique(w, n, k, b2, b as int);
            }
        }
    }
    if rj != ri {
        insert_sorted(&mut nbrs[ri], rj);
    }
    proof {
        assert forall|i: int| 0 <= i < nbrs@.len() implies strictly_sorted(#[trigger] nbrs@[i]@) by {
            if i != ri {
                assert(nbrs@[i] == nb0[i]);
            }
        }
        assert forall|i: int, j: usize| 0 <= i < nbrs@.len() implies (#[trigger] nbrs@[i]@.contains(j) <==> (j
            != i && exists|a2: int, b2: int|
            #[trigger] pair_seen(w, n, k, d + 1, a2, b2) && labels@[a2] == i && labels@[b2] == j)) by {
            if i != ri || rj == ri {
                assert(nbrs@[i] == nb0[i]);
                if j != i && exists|a2: int, b2: int|
                    #[trigger] pair_seen(w, n, k, d + 1, a2, b2) && labels@[a2] == i && labels@[b2] == j {
                    let (a2, b2) = choose|a2: int, b2: int|
                        #[trigger] pair_seen(w, n, k, d + 1, a2, b2) && labels@[a2] == i && labels@[b2] == j;
                    if !pair_seen(w, n, k, d, a2, b2) {
                        assert(a2 == a && b2 == b);
                    }
                }
                if nb0[i]@.contains(j) {
                    let (a2, b2) = choose|a2: int, b2: int|
                        #[trigger] pair_seen(w, n, k, d, a2, b2) && labels@[a2] == i && labels@[b2] == j;
                    assert(pair_seen(w, n, k, d + 1, a2, b2));
                }
            } else {
                if j != i && exists|a2: int, b2: int|
                    #[trigger] pair_seen(w, n, k, d + 1, a2, b2) && labels@[a2] == i && labels@[b2] == j {
                    let (a2, b2) = choose|a2: int, b2: int|
                        #[trigger] pair_seen(w, n, k, d + 1, a2, b2) && labels@[a2] == i && labels@[b2] == j;
                    if !pair_seen(w, n, k, d, a2, b2) {
                        assert(a2 == a && b2 == b);
                    }
                }
                if nb0[i]@.contains(j) {
                    let (a2, b2) = choose|a2: int, b2: int|
                        #[trigger] pair_seen(w, n, k, d, a2, b2) && labels@[a2] == i && labels@[b2] == j;
                    assert(pair_seen(w, n, k, d + 1, a2, b2));
                }
            }
        }
    }
}

proof fn lemma_skip_dir(w: int, labels: Seq<usize>, nbrs: Seq<Vec<usize>>, k: int, d: int)
    requires
        nbr_inv(w, labels, nbrs, k, d),
        forall|b: int| !(adjacent(w, labels.len() as int, k, b) && #[trigger] dir_of(w, k, b) == d),
    ensures
        nbr_inv(w, labels, nbrs, k, d + 1),
{
    let n = labels.len() as int;
    assert forall|a2: int, b2: int| #[trigger] pair_seen(w, n, k, d + 1, a2, b2) implies pair_seen(
        w,
        n,
        k,
        d,
        a2,
        b2,
    ) by {
        if a2 == k {
            assert(dir_of(w, k, b2) != d);
        }
    }
    assert forall|i: int, j: usize| 0 <= i < nbrs.len() implies (#[trigger] nbrs[i]@.contains(j) <==> (j
        != i && exists|a2: int, b2: int|
        #[trigger] pair_seen(w, n, k, d + 1, a2, b2) && labels[a2] == i && labels[b2] == j)) by {
        if j != i && exists|a2: int, b2: int|
            #[trigger] pair_seen(w, n, k, d + 1, a2, b2) && labels[a2] == i && labels[b2] == j {
            let (a2, b2) = choose|a2: int, b2: int|
                #[trigger] pair_seen(w, n, k, d + 1, a2, b2) && labels[a2] == i && labels[b2] == j;
            assert(pair_seen(w, n, k, d, a2, b2));
        }
        if nbrs[i]@.contains(j) {
            let (a2, b2) = choose|a2: int, b2: int|
                #[trigger] pair_seen(w, n, k, d, a2, b2) && labels[a2] == i && labels[b2] == j;
            assert(pair_seen(w, n, k, d + 1, a2, b2));
        }
    }
}

proof fn lemma_next_tile(w: int, labels: Seq<usize>, nbrs: Seq<Vec<usize>>, k: int)
    requires
        nbr_inv(w, labels, nbrs, k, 4),
    ensures
        nbr_inv(w, labels, nbrs, k + 1, 0),
{
    let n = labels.len() as int;
    assert forall|i: int, j: usize| 0 <= i < nbrs.len() implies (#[trigger] nbrs[i]@.contains(j) <==> (j
        != i && exists|a2: int, b2: int|
        #[trigger] pair_seen(w, n, k + 1, 0, a2, b2) && labels[a2] == i && labels[b2] == j)) by {
        if j != i && exists|a2: int, b2: int|
            #[trigger] pair_seen(w, n, k + 1, 0, a2, b2) && labels[a2] == i && labels[b2] == j {
            let (a2, b2) = choose|a2: int, b2: int|
                #[trigger] pair_seen(w, n, k + 1, 0, a2, b2) && labels[a2] == i && labels[b2] == j;
            assert(pair_seen(w, n, k, 4, a2, b2));
        }
        if nbrs[i]@.contains(j) {
            let (a2, b2) = choose|a2: int, b2: int|
                #[trigger] pair_seen(w, n, k, 4, a2, b2) && labels[a2] == i && labels[b2] == j;
            assert(pair_seen(w, n, k + 1, 0, a2, b2));
        }
    }
}


/// For each of the `nreg` regions of a `w`x`h` labelling, the other regions
/// that it touches, in increasing order.
fn region_neighbors(labels: &Vec<usize>, w: usize, h: usize, nreg: usize) -> (nbrs: Vec<Vec<usize>>)
    requires
        labels@.len() == w * h,
        w <= 0xFFFF,
        h <= 0xFFFF,
        forall|t: int| 0 <= t < labels@.len() ==> #[trigger] labels@[t] < nreg,
    ensures
        nbrs@.len() == nreg,
        forall|i: int| 0 <= i < nreg ==> strictly_sorted(#[trigger] nbrs@[i]@),
        forall|i: int, j: usize|
            0 <= i < nreg ==> (#[trigger] nbrs@[i]@.contains(j) <==> (j != i && touches(
                w as int,
                labels@,
                i,
                j as int,
            ))),
{
    let n = labels.len();
    let ghost wi = w as int;
    let ghost ni = n as int;
    assert(n <= 0xFFFF * 0xFFFF) by (nonlinear_arith)
        requires
            n == w * h,
            w <= 0xFFFF,
            h <= 0xFFFF,
    ;
    let mut nbrs: Vec<Vec<usize>> = Vec::new();
    while nbrs.len() < nreg
        invariant
            nbrs@.len() <= nreg,
            forall|i: int| 0 <= i < nbrs@.len() ==> (#[trigger] nbrs@[i])@.len() == 0,
        decreases nreg - nbrs.len(),
    {
        nbrs.push(Vec::new());
    }
    let mut idx: usize = 0;
    while idx < n
        invariant
            n == labels@.len(),
            ni == n,
            wi == w,
            n == w * h,
            n <= 0xFFFF * 0xFFFF,
            w <= 0xFFFF,
            h <= 0xFFFF,
            idx <= n,
            nbrs@.len() == nreg,
            forall|t: int| 0 <= t < labels@.len() ==> #[trigger] labels@[t] < nreg,
            nbr_inv(wi, labels@, nbrs@, idx as int, 0),
        decreases n - idx,
    {
        assert(w > 0) by (nonlinear_arith)
            requires
                idx < n,
                n == w * h,
        ;
        proof {
            lemma_neighbor_coords(idx as int, wi);
            lemma_row_bound(idx as int, wi, h as int);
        }
        let tx = idx % w;
        if tx > 0 {
            note_pair(&mut nbrs, labels, idx, idx - 1, Ghost(wi), Ghost(0));
        } else {
            proof {
                lemma_skip_dir(wi, labels@, nbrs@, idx as int, 0);
            }
        }
        if tx + 1 < w {
            note_pair(&mut nbrs, labels, idx, idx + 1, Ghost(wi), Ghost(1));
        } else {
            proof {
                lemma_skip_dir(wi, labels@, nbrs@, idx as int, 1);
            }
        }
        if idx >= w {
            note_pair(&mut nbrs, labels, idx, idx - w, Ghost(wi), Ghost(2));
        } else {
            proof {
                lemma_skip_dir(wi, labels@, nbrs@, idx as int, 2);
            }
        }
        if idx + w < n {
            note_pair(&mut nbrs, labels, idx, idx + w, Ghost(wi), Ghost(3));
        } else {
            proof {
                lemma_skip_dir(wi, labels@, nbrs@, idx as int, 3);
            }
        }
        proof {
            lemma_next_tile(wi, labels@, nbrs@, idx as int);
        }
        idx = idx + 1;
    }
    proof {
        assert forall|i: int, j: usize| 0 <= i < nreg implies (#[trigger] nbrs@[i]@.contains(j) <==> (j != i
            && touches(wi, labels@, i, j as int))) by {
            if nbrs@[i]@.contains(j) {
                let (a2, b2) = choose|a2: int, b2: int|
                    #[trigger] pair_seen(wi, ni, ni, 0, a2, b2) && labels@[a2] == i && labels@[b2] == j;
                assert(adjacent(wi, ni, a2, b2));
            }
            if j != i && touches(wi, labels@, i, j as int) {
                let (a2, b2) = choose|a2: int, b2: int|
                    #[trigger] adjacent(wi, ni, a2, b2) && labels@[a2] == i && labels@[b2] == j;
                assert(pair_seen(wi, ni, ni, 0, a2, b2));
            }
        }
    }
    nbrs
}


/// Number of walkable regions among the first `k`.
pub open spec fn walk_count(regs: Seq<Region>, k: int) -> int
    decreases k,
{
    if k <= 0 {
        0
    } else {
        walk_count(regs, k - 1) + if regs[k - 1].walkable { 1int } else { 0int }
    }
}

/// Group of region `i`: walkable regions are numbered in order from 0, and
/// unwalkable regions follow, each in a group of its own.
pub open spec fn group_of(regs: Seq<Region>, i: int) -> int {
    if regs[i].walkable {
        walk_count(regs, i)
    } else {
        walk_count(regs, regs.len() as int) + (i - walk_count(regs, i))
    }
}

/// Two regions agree on every field but the group.
pub open spec fn same_but_group(a: Region, b: Region) -> bool {
    &&& a.index == b.index
    &&& a.walkable == b.walkable
    &&& a.center_x == b.center_x
    &&& a.center_y == b.center_y
    &&& a.tile_count == b.tile_count
    &&& a.neighbors@ == b.neighbors@
}

proof fn lemma_walk_count_bounds(regs: Seq<Region>, k: int)
    requires
        0 <= k <= regs.len(),
    ensures
        0 <= walk_count(regs, k) <= k,
        forall|i: int| 0 <= i <= k ==> 0 <= walk_count(regs, k) - #[trigger] walk_count(regs, i) <= k - i,
    decreases k,
{
    if k > 0 {
        lemma_walk_count_bounds(regs, k - 1);
    }
}

/// Numbers the walkable groups by a depth-first search over walkable
/// neighbours from each walkable region not yet visited, then gives each
/// unwalkable region a group of its own. Walkable regions never touch one
/// another, so each walkable region forms a group alone.
fn assign_groups(regions: &mut Vec<Region>)
    requires
        forall|i: int, k: int|
            0 <= i < old(regions)@.len() && 0 <= k < old(regions)@[i].neighbors@.len() ==> #[trigger] old(
                regions,
            )@[i].neighbors@[k] < old(regions)@.len(),
        forall|i: int, k: int|
            0 <= i < old(regions)@.len() && old(regions)@[i].walkable && 0 <= k < old(
                regions,
            )@[i].neighbors@.len() ==> !old(regions)@[#[trigger] old(regions)@[i].neighbors@[k] as int].walkable,
    ensures
        final(regions)@.len() == old(regions)@.len(),
        forall|i: int|
            0 <= i < final(regions)@.len() ==> same_but_group(#[trigger] final(regions)@[i], old(regions)@[i])
                && final(regions)@[i].group == group_of(old(regions)@, i),
{
    let ghost orig = regions@;
    let len = regions.len();
    let mut visited: Vec<bool> = Vec::new();
    while visited.len() < len
        invariant
            visited@.len() <= len,
            forall|i: int| 0 <= i < visited@.len() ==> !#[trigger] visited@[i],
        decreases len - visited.len(),
    {
        visited.push(false);
    }
    let mut group_id: usize = 0;
    let mut start: usize = 0;
    while start < len
        invariant
            len == orig.len(),
            regions@.len() == len,
            visited@.len() == len,
            start <= len,
            group_id == walk_count(orig, start as int),
            forall|i: int, k: int|
                0 <= i < orig.len() && 0 <= k < orig[i].neighbors@.len() ==> #[trigger] orig[i].neighbors@[k]
                    < orig.len(),
            forall|i: int, k: int|
                0 <= i < orig.len() && orig[i].walkable && 0 <= k < orig[i].neighbors@.len()
                    ==> !orig[#[trigger] orig[i].neighbors@[k] as int].walkable,
            forall|i: int| 0 <= i < len ==> #[trigger] visited@[i] == (i < start && orig[i].walkable),
            forall|i: int| 0 <= i < len ==> same_but_group(#[trigger] regions@[i], orig[i]),
            forall|i: int|
                0 <= i < start && orig[i].walkable ==> #[trigger] regions@[i].group == walk_count(orig, i),
        decreases len - start,
    {
        proof {
            lemma_walk_count_bounds(orig, start as int);
        }
        if visited[start] || !regions[start].walkable {
            start = start + 1;
            continue;
        }
        let mut stack: Vec<usize> = Vec::new();
        stack.push(start);
        while stack.len() > 0
            invariant
                len == orig.len(),
                regions@.len() == len,
                visited@.len() == len,
                start < len,
                orig[start as int].walkable,
                group_id == walk_count(orig, start as int),
                forall|i: int, k: int|
                    0 <= i < orig.len() && 0 <= k < orig[i].neighbors@.len() ==> #[trigger] orig[i].neighbors@[k]
                        < orig.len(),
                forall|i: int, k: int|
                    0 <= i < orig.len() && orig[i].walkable && 0 <= k < orig[i].neighbors@.len()
                        ==> !orig[#[trigger] orig[i].neighbors@[k] as int].walkable,
                forall|i: int|
                    0 <= i < len && i != start ==> #[trigger] visited@[i] == (i < start && orig[i].walkable),
                visited@[start as int] ==> regions@[start as int].group == group_id,
                forall|i: int| 0 <= i < len ==> same_but_group(#[trigger] regions@[i], orig[i]),
                forall|i: int|
                    0 <= i < start && orig[i].walkable ==> #[trigger] regions@[i].group == walk_count(orig, i),
                forall|i: int| 0 <= i < stack@.len() ==> #[trigger] stack@[i] == start,
                !visited@[start as int] ==> stack@.len() > 0,
            decreases (if visited@[start as int] { 0int } else { 1int }), stack@.len(),
        {
            let ghost st0 = stack@;
            let ri = stack.pop().unwrap();
            proof {
                assert(st0[st0.len() - 1] == ri);
                assert forall|i: int| 0 <= i < stack@.len() implies #[trigger] stack@[i] == start by {
                    assert(stack@[i] == st0[i]);
                }
            }
            if visited[ri] {
                continue;
            }
            visited.set(ri, true);
            let ghost regs0 = regions@;
            regions[ri].group = group_id;
            proof {
                assert forall|i: int| 0 <= i < len implies same_but_group(#[trigger] regions@[i], orig[i]) by {
                    if i != ri {
                        assert(regions@[i] == regs0[i]);
                    }
                }
                assert forall|i: int|
                    0 <= i < start && orig[i].walkable implies #[trigger] regions@[i].group == walk_count(orig, i) by {
                    assert(regions@[i] == regs0[i]);
                }
            }
            let mut k: usize = 0;
            while k < regions[ri].neighbors.len()
                invariant
                    len == orig.len(),
                    regions@.len() == len,
                    visited@.len() == len,
                    ri == start,
                    start < len,
                    orig[start as int].walkable,
                    forall|i: int, k2: int|
                        0 <= i < orig.len() && 0 <= k2 < orig[i].neighbors@.len() ==> #[trigger] orig[i].neighbors@[k2]
                            < orig.len(),
                    forall|i: int, k2: int|
                        0 <= i < orig.len() && orig[i].walkable && 0 <= k2 < orig[i].neighbors@.len()
                            ==> !orig[#[trigger] orig[i].neighbors@[k2] as int].walkable,
                    forall|i: int| 0 <= i < len ==> same_but_group(#[trigger] regions@[i], orig[i]),
                    forall|i: int| 0 <= i < stack@.len() ==> #[trigger] stack@[i] == start,
                decreases regions@[ri as int].neighbors@.len() - k,
            {
                let ni = regions[ri].neighbors[k];
                proof {
                    assert(regions@[ri as int].neighbors@ == orig[ri as int].neighbors@);
                    assert(ni == orig[ri as int].neighbors@[k as int]);
                    assert(!orig[ni as int].walkable);
                    assert(same_but_group(regions@[ni as int], orig[ni as int]));
                }
                if !visited[ni] && regions[ni].walkable {
                    stack.push(ni);
                }
                k = k + 1;
            }
        }
        proof {
            lemma_walk_count_bounds(orig, start as int + 1);
        }
        group_id = group_id + 1;
        start = start + 1;
    }
    proof {
        lemma_walk_count_bounds(orig, len as int);
    }
    let ghost walkable_total = group_id as int;
    let mut i: usize = 0;
    while i < len
        invariant
            len == orig.len(),
            regions@.len() == len,
            i <= len,
            walkable_total == walk_count(orig, len as int),
            group_id == walkable_total + (i - walk_count(orig, i as int)),
            forall|j: int| 0 <= j < len ==> same_but_group(#[trigger] regions@[j], orig[j]),
            forall|j: int| 0 <= j < len && orig[j].walkable ==> #[trigger] regions@[j].group == walk_count(orig, j),
            forall|j: int| 0 <= j < i && !orig[j].walkable ==> #[trigger] regions@[j].group == group_of(orig, j),
        decreases len - i,
    {
        proof {
            lemma_walk_count_bounds(orig, i as int);
            lemma_walk_count_bounds(orig, len as int);
        }
        if !regions[i].walkable {
            let ghost regs0 = regions@;
            proof {
                assert(walk_count(orig, i as int + 1) == walk_count(orig, i as int));
                assert(walk_count(orig, len as int) - walk_count(orig, i as int + 1) <= len - (i + 1));
            }
            regions[i].group = group_id;
            group_id = group_id + 1;
            proof {
                assert forall|j: int| 0 <= j < len implies same_but_group(#[trigger] regions@[j], orig[j]) by {
                    if j != i {
                        assert(regions@[j] == regs0[j]);
                    }
                }
                assert forall|j: int| 0 <= j < len && orig[j].walkable implies #[trigger] regions@[j].group
                    == walk_count(orig, j) by {
                    assert(regions@[j] == regs0[j]);
                }
                assert forall|j: int| 0 <= j < i + 1 && !orig[j].walkable implies #[trigger] regions@[j].group
                    == group_of(orig, j) by {
                    if j < i {
                        assert(regions@[j] == regs0[j]);
                    }
                }
            }
        }
        i = i + 1;
    }
}


proof fn lemma_walk_count_eq(a: Seq<Region>, b: Seq<Region>, k: int)
    requires
        0 <= k <= a.len(),
        a.len() == b.len(),
        forall|i: int| 0 <= i < a.len() ==> (#[trigger] a[i]).walkable == b[i].walkable,
    ensures
        walk_count(a, k) == walk_count(b, k),
    decreases k,
{
    if k > 0 {
        lemma_walk_count_eq(a, b, k - 1);
    }
}

proof fn lemma_walk_count_strict(regs: Seq<Region>, i: int, j: int)
    requires
        0 <= i < j <= regs.len(),
        regs[i].walkable,
    ensures
        walk_count(regs, i) < walk_count(regs, j),
    decreases j - i,
{
    if j > i + 1 {
        lemma_walk_count_strict(regs, i, j - 1);
    }
}

/// Each step of a walk stays within one region.
proof fn lemma_walk_same_label(pass: Seq<bool>, w: int, labels: Seq<usize>, p: Seq<int>, k: int)
    requires
        is_walk(pass, w, p),
        0 <= k < p.len(),
        labels.len() == pass.len(),
        forall|a: int, b: int|
            #[trigger] adjacent(w, pass.len() as int, a, b) && pass[a] == pass[b] ==> labels[a] == labels[b],
    ensures
        labels[p[k]] == labels[p[0]],
    decreases k,
{
    if k > 0 {
        lemma_walk_same_label(pass, w, labels, p, k - 1);
        assert(walk_step(pass, w, p, k - 1));
        assert(pass[p[k]] == pass[p[0]] && pass[p[k - 1]] == pass[p[0]]);
    }
}

/// The tile under pixel `(px, py)` of a `w`x`h`-tile grid, if inside it.
pub open spec fn tile_at_px(w: int, h: int, px: int, py: int) -> Option<int> {
    if 0 <= px && 0 <= py && px / 32 < w && py / 32 < h {
        Some((py / 32) * w + px / 32)
    } else {
        None
    }
}

proof fn lemma_tile_at_px_bound(w: int, h: int, px: int, py: int)
    ensures
        tile_at_px(w, h, px, py) matches Some(t) ==> 0 <= (py / 32) * w <= t < w * h && t == (py / 32) * w + px / 32,
{
    if tile_at_px(w, h, px, py) is Some {
        assert(0 <= (py / 32) * w <= (py / 32) * w + px / 32 < w * h) by (nonlinear_arith)
            requires
                0 <= px / 32 < w,
                0 <= py / 32 < h,
        ;
    }
}

/// Tile-to-region labels of a `width`x`height` grid, row-major.
struct TileLabels {
    labels: Vec<usize>,
    width: u16,
    height: u16,
}

impl TileLabels {
    #[verifier::type_invariant]
    spec fn wf(self) -> bool {
        self.labels@.len() == self.width * self.height
    }
}

/// Tile-to-region mapping built from a map's walkability.
pub struct RegionMap {
    tile_region: TileLabels,
    pub regions: Vec<Region>,
}

/// The mathematical content of a [`RegionMap`]: the grid size in tiles, the
/// region label of each tile (row-major) and the regions in index order.
pub ghost struct RegionModel {
    pub width: int,
    pub height: int,
    pub labels: Seq<usize>,
    pub regions: Seq<Region>,
}

impl View for RegionMap {
    type V = RegionModel;

    closed spec fn view(&self) -> RegionModel {
        RegionModel {
            width: self.tile_region.width as int,
            height: self.tile_region.height as int,
            labels: self.tile_region.labels@,
            regions: self.regions@,
        }
    }
}

impl RegionMap {
    /// Region label of each tile, row-major.
    pub open spec fn labels(&self) -> Seq<usize> {
        self@.labels
    }

    /// Width of the grid in tiles.
    pub open spec fn grid_width(&self) -> int {
        self@.width
    }

    /// Height of the grid in tiles.
    pub open spec fn grid_height(&self) -> int {
        self@.height
    }

    /// The regions, in index order.
    pub open spec fn region_seq(&self) -> Seq<Region> {
        self@.regions
    }

    /// A region found under a pixel names one of `regions`.
    pub proof fn lemma_region_at_in_range(&self, px: int, py: int)
        requires
            self.wf(),
        ensures
            tile_at_px(self.grid_width(), self.grid_height(), px, py) matches Some(t) ==> 0 <= t < self.labels().len()
                && self.labels()[t] < self.region_seq().len(),
    {
        lemma_tile_at_px_bound(self.grid_width(), self.grid_height(), px, py);
    }

    /// Every tile's label names one of `regions`.
    pub open spec fn wf(&self) -> bool {
        &&& self.labels().len() == self.grid_width() * self.grid_height()
        &&& forall|t: int| 0 <= t < self.labels().len() ==> #[trigger] self.labels()[t] < self.region_seq().len()
    }

    /// The regions, their neighbour lists and groups are those of map `m`.
    pub open spec fn describes(&self, m: MapModel) -> bool {
        let pass = walkable_tiles(m);
        let labels = self.labels();
        let regs = self.region_seq();
        &&& self.grid_width() == m.width
        &&& self.grid_height() == m.height
        &&& labels.len() == m.width * m.height
        &&& is_region_labelling(pass, m.width, labels, regs.len() as int)
        &&& forall|q: int| 0 <= q < regs.len() ==> region_fields(#[trigger] regs[q], q, pass, m.width, labels)
        &&& forall|q: int| 0 <= q < regs.len() ==> strictly_sorted(#[trigger] regs[q].neighbors@)
        &&& forall|q: int, j: usize|
            0 <= q < regs.len() ==> (#[trigger] regs[q].neighbors@.contains(j) <==> (j != q && touches(
                m.width,
                labels,
                q,
                j as int,
            )))
        &&& forall|q: int| 0 <= q < regs.len() ==> (#[trigger] regs[q]).group == group_of(regs, q)
    }

    /// What `reachable` answers: both pixels lie on walkable regions of one group.
    pub open spec fn reachable_spec(&self, ax: int, ay: int, bx: int, by: int) -> bool {
        let w = self.grid_width();
        let h = self.grid_height();
        match (tile_at_px(w, h, ax, ay), tile_at_px(w, h, bx, by)) {
            (Some(ta), Some(tb)) => {
                let ra = self.region_seq()[self.labels()[ta] as int];
                let rb = self.region_seq()[self.labels()[tb] as int];
                ra.walkable && rb.walkable && ra.group == rb.group
            },
            _ => false,
        }
    }

    /// Builds regions from a map by flood-filling contiguous walkable and
    /// unwalkable areas, then records which regions touch and numbers the
    /// walkable groups.
    pub fn from_map(map: &TileMap) -> (rm: RegionMap)
        ensures
            rm.describes(map@),
            rm.wf(),
    {
        let w = map.width();
        let h = map.height();
        let pass = passability(map);
        let (labels, regions) = flood_fill(&pass, w as usize, h as usize);
        let mut rm = RegionMap { tile_region: TileLabels { labels, width: w, height: h }, regions };
        rm.build_neighbors();
        let ghost before = rm.regions@;
        let ghost ps = pass@;
        let ghost wi = w as int;
        proof {
            assert forall|i: int, k: int|
                0 <= i < before.len() && 0 <= k < before[i].neighbors@.len() implies #[trigger] before[i].neighbors@[k]
                < before.len() by {
                let j = before[i].neighbors@[k];
                assert(before[i].neighbors@.contains(j));
                let (a, b) = choose|a: int, b: int|
                    #[trigger] adjacent(wi, ps.len() as int, a, b) && rm.labels()[a] == i && rm.labels()[b] == j;
            }
            assert forall|i: int, k: int|
                0 <= i < before.len() && before[i].walkable && 0 <= k < before[i].neighbors@.len() implies !before[#[trigger] before[i].neighbors@[k] as int].walkable by {
                let j = before[i].neighbors@[k];
                assert(before[i].neighbors@.contains(j));
                let (a, b) = choose|a: int, b: int|
                    #[trigger] adjacent(wi, ps.len() as int, a, b) && rm.labels()[a] == i && rm.labels()[b] == j;
                assert(region_fields(before[i], i, ps, wi, rm.labels()));
                assert(region_fields(before[j as int], j as int, ps, wi, rm.labels()));
                assert(ps[a] == before[i].walkable);
                if before[j as int].walkable {
                    assert(ps[b] == before[j as int].walkable);
                    assert(rm.labels()[a] == rm.labels()[b]);
                }
            }
        }
        rm.build_groups();
        proof {
            let after = rm.regions@;
            assert forall|i: int| 0 <= i < after.len() implies (#[trigger] after[i]).walkable == before[i].walkable by {
                assert(same_but_group(after[i], before[i]));
            }
            assert forall|q: int| 0 <= q < after.len() implies (#[trigger] after[q]).group == group_of(after, q) by {
                lemma_walk_count_eq(after, before, q);
                lemma_walk_count_eq(after, before, after.len() as int);
            }
            assert forall|q: int| 0 <= q < after.len() implies region_fields(#[trigger] after[q], q, ps, wi, rm.labels()) by {
                assert(same_but_group(after[q], before[q]));
                assert(region_fields(before[q], q, ps, wi, rm.labels()));
            }
            assert forall|q: int| 0 <= q < after.len() implies strictly_sorted(#[trigger] after[q].neighbors@) by {
                assert(same_but_group(after[q], before[q]));
            }
            assert forall|q: int, j: usize| 0 <= q < after.len() implies (#[trigger] after[q].neighbors@.contains(j) <==> (j != q && touches(
                wi,
                rm.labels(),
                q,
                j as int,
            ))) by {
                assert(same_but_group(after[q], before[q]));
            }
        }
        rm
    }

    /// Fills each region's neighbour list: the other regions it touches, in
    /// increasing order.
    fn build_neighbors(&mut self)
        requires
            forall|t: int| 0 <= t < old(self).labels().len() ==> #[trigger] old(self).labels()[t] < old(self).regions@.len(),
        ensures
            final(self).labels() == old(self).labels(),
            final(self).grid_width() == old(self).grid_width(),
            final(self).grid_height() == old(self).grid_height(),
            final(self).regions@.len() == old(self).regions@.len(),
            forall|q: int| 0 <= q < final(self).regions@.len() ==> {
                let a = #[trigger] final(self).regions@[q];
                let b = old(self).regions@[q];
                &&& a.index == b.index
                &&& a.walkable == b.walkable
                &&& a.center_x == b.center_x
                &&& a.center_y == b.center_y
                &&& a.tile_count == b.tile_count
                &&& a.group == b.group
                &&& strictly_sorted(a.neighbors@)
                &&& forall|j: usize| #[trigger] a.neighbors@.contains(j) <==> (j != q && touches(
                    final(self).grid_width(),
                    final(self).labels(),
                    q,
                    j as int,
                ))
            },
    {
        proof {
            use_type_invariant(&self.tile_region);
            assert forall|t: int| 0 <= t < self.tile_region.labels@.len() implies #[trigger] self.tile_region.labels@[t]
                < self.regions@.len() by {
                assert(self.labels()[t] < self.regions@.len());
            }
        }
        let mut nbrs = region_neighbors(
            &self.tile_region.labels,
            self.tile_region.width as usize,
            self.tile_region.height as usize,
            self.regions.len(),
        );
        let ghost all = nbrs@;
        let ghost regs0 = self.regions@;
        let mut i: usize = 0;
        while i < self.regions.len()
            invariant
                i <= self.regions@.len(),
                self.regions@.len() == regs0.len(),
                nbrs@.len() == regs0.len(),
                all.len() == regs0.len(),
                self.labels() == old(self).labels(),
                self.grid_width() == old(self).grid_width(),
                self.grid_height() == old(self).grid_height(),
                regs0 == old(self).regions@,
                forall|q: int| i <= q < nbrs@.len() ==> #[trigger] nbrs@[q] == all[q],
                forall|q: int| 0 <= q < regs0.len() ==> {
                    let a = #[trigger] self.regions@[q];
                    let b = regs0[q];
                    &&& a.index == b.index
                    &&& a.walkable == b.walkable
                    &&& a.center_x == b.center_x
                    &&& a.center_y == b.center_y
                    &&& a.tile_count == b.tile_count
                    &&& a.group == b.group
                    &&& q < i ==> a.neighbors@ == all[q]@
                },
            decreases regs0.len() - i,
        {
            let mut v: Vec<usize> = Vec::new();
            let ghost nb0 = nbrs@;
            core::mem::swap(&mut v, &mut nbrs[i]);
            let ghost rg0 = self.regions@;
            self.regions[i].neighbors = v;
            proof {
                assert forall|q: int| i + 1 <= q < nbrs@.len() implies #[trigger] nbrs@[q] == all[q] by {
                    assert(nbrs@[q] == nb0[q]);
                }
                assert forall|q: int| 0 <= q < regs0.len() && q != i implies #[trigger] self.regions@[q] == rg0[q] by {}
            }
            i = i + 1;
        }
    }

    /// Numbers the groups: walkable regions reachable from one another share
    /// a group, and each unwalkable region has a group of its own.
    fn build_groups(&mut self)
        requires
            forall|i: int, k: int|
                0 <= i < old(self).regions@.len() && 0 <= k < old(self).regions@[i].neighbors@.len() ==> #[trigger] old(
                    self,
                ).regions@[i].neighbors@[k] < old(self).regions@.len(),
            forall|i: int, k: int|
                0 <= i < old(self).regions@.len() && old(self).regions@[i].walkable && 0 <= k < old(
                    self,
                ).regions@[i].neighbors@.len() ==> !old(self).regions@[#[trigger] old(self).regions@[i].neighbors@[k] as int].walkable,
        ensures
            final(self).labels() == old(self).labels(),
            final(self).grid_width() == old(self).grid_width(),
            final(self).grid_height() == old(self).grid_height(),
            final(self).regions@.len() == old(self).regions@.len(),
            forall|i: int|
                0 <= i < final(self).regions@.len() ==> same_but_group(#[trigger] final(self).regions@[i], old(self).regions@[i])
                    && final(self).regions@[i].group == group_of(old(self).regions@, i),
    {
        assign_groups(&mut self.regions);
    }

    /// The region index at a pixel position, or `None` outside the map.
    pub fn region_at_px(&self, px: i32, py: i32) -> (r: Option<usize>)
        ensures
            r == (match tile_at_px(self.grid_width(), self.grid_height(), px as int, py as int) {
                Some(t) => Some(self.labels()[t]),
                None => None,
            }),
    {
        proof {
            use_type_invariant(&self.tile_region);
        }
        if px < 0 || py < 0 {
            return None;
        }
        let tx = px / 32;
        let ty = py / 32;
        if tx >= self.tile_region.width as i32 || ty >= self.tile_region.height as i32 {
            return None;
        }
        let w = self.tile_region.width as usize;
        proof {
            assert(tx as int == px as int / 32 && ty as int == py as int / 32);
            assert(tile_at_px(w as int, self.tile_region.height as int, px as int, py as int) is Some);
            lemma_tile_at_px_bound(w as int, self.tile_region.height as int, px as int, py as int);
            assert(self.tile_region.labels@.len() == w * self.tile_region.height);
            assert(0 <= (ty as int) * (w as int) <= (ty as int) * (w as int) + (tx as int));
            assert((ty as int) * (w as int) + (tx as int) < self.tile_region.labels@.len());
        }
        let n = self.tile_region.labels.len();
        let idx = ty as usize * w + tx as usize;
        Some(self.tile_region.labels[idx])
    }

    /// The region with index `index`, if there is one.
    pub fn region(&self, index: usize) -> (r: Option<&Region>)
        ensures
            r == (if index < self.region_seq().len() { Some(&self.region_seq()[index as int]) } else { None }),
    {
        if index < self.regions.len() {
            Some(&self.regions[index])
        } else {
            None
        }
    }

    /// Whether two pixel positions are reachable from one another: both on
    /// walkable regions of the same group.
    pub fn reachable(&self, ax: i32, ay: i32, bx: i32, by: i32) -> (r: bool)
        requires
            self.wf(),
        ensures
            r == self.reachable_spec(ax as int, ay as int, bx as int, by as int),
    {
        let ra = self.region_at_px(ax, ay);
        let rb = self.region_at_px(bx, by);
        proof {
            use_type_invariant(&self.tile_region);
            lemma_tile_at_px_bound(self.grid_width(), self.grid_height(), ax as int, ay as int);
            lemma_tile_at_px_bound(self.grid_width(), self.grid_height(), bx as int, by as int);
        }
        match (ra, rb) {
            (Some(a), Some(b)) => {
                let ga = &self.regions[a];
                let gb = &self.regions[b];
                ga.walkable && gb.walkable && ga.group == gb.group
            },
            _ => false,
        }
    }
}

/// Walkability of each tile of `map`, row-major.
fn passability(map: &TileMap) -> (pass: Vec<bool>)
    ensures
        pass@ == walkable_tiles(map@),
        pass@.len() == map@.width * map@.height,
{
    let w = map.width() as usize;
    let h = map.height();
    let n = map.tiles().len();
    let mut pass: Vec<bool> = Vec::new();
    let mut i: usize = 0;
    while i < n
        invariant
            n == map@.tiles.len(),
            n == map@.width * map@.height,
            w == map@.width,
            h == map@.height,
            w <= 0xFFFF,
            i <= n,
            pass@.len() == i,
            forall|k: int| 0 <= k < i ==> #[trigger] pass@[k] == has(map@.tiles[k].flags, TileFlags::WALKABLE),
        decreases n - i,
    {
        assert(w > 0) by (nonlinear_arith)
            requires
                i < n,
                n == w * map@.height,
        ;
        proof {
            lemma_row_bound(i as int, w as int, map@.height);
            vstd::arithmetic::div_mod::lemma_fundamental_div_mod(i as int, w as int);
            vstd::arithmetic::div_mod::lemma_mod_pos_bound(i as int, w as int);
            assert((i as int / w as int) * w + i as int % w as int == i) by (nonlinear_arith)
                requires
                    i == w * (i as int / w as int) + i as int % w as int,
            ;
        }
        let tx = (i % w) as u16;
        let ty = (i / w) as u16;
        let walkable = map.is_tile_walkable(tx, ty);
        proof {
            assert(tx == i % w);
            assert(ty == i / w);
            assert(ty * map@.width + tx == i);
            assert(walkable == has(map@.tiles[i as int].flags, TileFlags::WALKABLE));
        }
        pass.push(walkable);
        i = i + 1;
    }
    proof {
        assert(pass@ =~= walkable_tiles(map@));
    }
    pass
}

/// Neighbouring is symmetric: region `j` lists region `q` as a neighbour
/// exactly when `q` lists `j`.
pub proof fn lemma_neighbors_symmetric(rm: &RegionMap, m: MapModel, q: usize, j: usize)
    requires
        rm.describes(m),
        q < rm.region_seq().len(),
        j < rm.region_seq().len(),
    ensures
        rm.region_seq()[q as int].neighbors@.contains(j) <==> rm.region_seq()[j as int].neighbors@.contains(q),
{
    let labels = rm.labels();
    let w = m.width;
    let n = labels.len() as int;
    assert(w >= 0);
    if touches(w, labels, q as int, j as int) {
        let (a, b) = choose|a: int, b: int| #[trigger] adjacent(w, n, a, b) && labels[a] == q && labels[b] == j;
        if w == 0 {
            assert(n == 0) by (nonlinear_arith)
                requires
                    n == w * m.height,
                    w == 0,
            ;
        }
        lemma_adjacent_symmetric(w, n, a, b);
        assert(adjacent(w, n, b, a));
    }
    if touches(w, labels, j as int, q as int) {
        let (a, b) = choose|a: int, b: int| #[trigger] adjacent(w, n, a, b) && labels[a] == j && labels[b] == q;
        if w == 0 {
            assert(n == 0) by (nonlinear_arith)
                requires
                    n == w * m.height,
                    w == 0,
            ;
        }
        lemma_adjacent_symmetric(w, n, a, b);
        assert(adjacent(w, n, b, a));
    }
}

/// Reachability does not depend on which end is named first.
pub proof fn lemma_reachable_symmetric(rm: &RegionMap, ax: int, ay: int, bx: int, by: int)
    ensures
        rm.reachable_spec(ax, ay, bx, by) == rm.reachable_spec(bx, by, ax, ay),
{
}

/// Two tiles lie in the same region exactly when a 4-connected path of tiles
/// of one walkability joins them.
pub proof fn lemma_same_region_iff_connected(rm: &RegionMap, m: MapModel, a: int, b: int)
    requires
        rm.describes(m),
        0 <= a < m.width * m.height,
        0 <= b < m.width * m.height,
    ensures
        rm.labels()[a] == rm.labels()[b] <==> connected(walkable_tiles(m), m.width, a, b),
{
    let pass = walkable_tiles(m);
    let labels = rm.labels();
    if connected(pass, m.width, a, b) {
        let p = choose|p: Seq<int>| #[trigger] is_walk(pass, m.width, p) && p[0] == a && p.last() == b;
        lemma_walk_same_label(pass, m.width, labels, p, p.len() - 1);
    }
}

/// Two pixel positions are reachable from one another exactly when both lie
/// on walkable tiles of the map joined by a 4-connected walkable path.
pub proof fn lemma_reachable_iff_connected(rm: &RegionMap, m: MapModel, ax: int, ay: int, bx: int, by: int)
    requires
        rm.describes(m),
    ensures
        rm.reachable_spec(ax, ay, bx, by) <==> match (
            tile_at_px(m.width, m.height, ax, ay),
            tile_at_px(m.width, m.height, bx, by),
        ) {
            (Some(ta), Some(tb)) => walkable_tiles(m)[ta] && walkable_tiles(m)[tb] && connected(
                walkable_tiles(m),
                m.width,
                ta,
                tb,
            ),
            _ => false,
        },
{
    let pass = walkable_tiles(m);
    let labels = rm.labels();
    let regs = rm.regions@;
    match (tile_at_px(m.width, m.height, ax, ay), tile_at_px(m.width, m.height, bx, by)) {
        (Some(ta), Some(tb)) => {
            assert(0 <= ta < m.width * m.height) by (nonlinear_arith)
                requires
                    ta == (ay / 32) * m.width + ax / 32,
                    0 <= ax / 32 < m.width,
                    0 <= ay / 32 < m.height,
            ;
            assert(0 <= tb < m.width * m.height) by (nonlinear_arith)
                requires
                    tb == (by / 32) * m.width + bx / 32,
                    0 <= bx / 32 < m.width,
                    0 <= by / 32 < m.height,
            ;
            lemma_same_region_iff_connected(rm, m, ta, tb);
            let qa = labels[ta] as int;
            let qb = labels[tb] as int;
            assert(labels[ta] < regs.len());
            assert(labels[tb] < regs.len());
            assert(region_fields(regs[qa], qa, pass, m.width, labels));
            assert(region_fields(regs[qb], qb, pass, m.width, labels));
            assert(regs[qa].group == group_of(regs, qa));
            assert(regs[qb].group == group_of(regs, qb));
            if regs[qa].walkable && regs[qb].walkable {
                if qa < qb {
                    lemma_walk_count_strict(regs, qa, qb);
                } else if qb < qa {
                    lemma_walk_count_strict(regs, qb, qa);
                }
            }
        },
        _ => {},
    }
}

} // verus!
