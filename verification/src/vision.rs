//! Per-player tile visibility: what each player sees now, and what it has
//! ever seen.
use vstd::prelude::*;
use crate::fp8::trunc_div;

verus! {

/// Number of players tracked.
pub const PLAYERS: usize = 8;

/// Tile `(tx, ty)` lies within `r` tiles (Euclidean) of tile `(cx, cy)`.
pub open spec fn in_sight(cx: int, cy: int, r: int, tx: int, ty: int) -> bool {
    (tx - cx) * (tx - cx) + (ty - cy) * (ty - cy) <= r * r
}

/// Abstract content of a vision map: per player, a visible and an explored
/// flag per tile, row-major.
pub ghost struct VisionModel {
    pub width: int,
    pub height: int,
    pub visible: Seq<Seq<bool>>,
    pub explored: Seq<Seq<bool>>,
}

/// Per-player tile visibility.
pub struct VisionMap {
    width: u16,
    height: u16,
    visible: Vec<Vec<bool>>,
    explored: Vec<Vec<bool>>,
}

impl View for VisionMap {
    type V = VisionModel;

    closed spec fn view(&self) -> VisionModel {
        VisionModel {
            width: self.width as int,
            height: self.height as int,
            visible: Seq::new(self.visible@.len(), |p: int| self.visible@[p]@),
            explored: Seq::new(self.explored@.len(), |p: int| self.explored@[p]@),
        }
    }
}

/// A vision model of the given size with `PLAYERS` players.
pub open spec fn vision_shape(m: VisionModel, w: int, h: int) -> bool {
    &&& m.width == w
    &&& m.height == h
    &&& m.visible.len() == PLAYERS
    &&& m.explored.len() == PLAYERS
    &&& forall|p: int| 0 <= p < PLAYERS ==> (#[trigger] m.visible[p]).len() == w * h
    &&& forall|p: int| 0 <= p < PLAYERS ==> (#[trigger] m.explored[p]).len() == w * h
}

/// Every tile a player sees is one that player has explored.
pub open spec fn seen_is_explored(m: VisionModel) -> bool {
    forall|p: int, i: int|
        0 <= p < PLAYERS && 0 <= i < m.width * m.height && #[trigger] m.visible[p][i]
            ==> m.explored[p][i]
}

/// `m` is a `w`x`h` map on which no player sees or has seen anything.
pub open spec fn fresh_vision(m: VisionModel, w: int, h: int) -> bool {
    &&& vision_shape(m, w, h)
    &&& forall|p: int, i: int| 0 <= p < PLAYERS && 0 <= i < w * h ==> !m.visible[p][i] && !m.explored[p][i]
}

/// `after` is `before` once player `owner` has revealed the tiles within
/// `sight` tiles of the tile under pixel `(px, py)`.
pub open spec fn revealed(before: VisionModel, after: VisionModel, px: i32, py: i32, sight: u8, owner: u8) -> bool {
    &&& vision_shape(after, before.width, before.height)
    &&& forall|p: int, i: int|
        #![trigger after.visible[p][i]]
        #![trigger after.explored[p][i]]
        0 <= p < PLAYERS && 0 <= i < before.width * before.height ==> {
            let hit = p == owner && in_sight(
                trunc_div(px as int, 32),
                trunc_div(py as int, 32),
                sight as int,
                i % before.width,
                i / before.width,
            );
            &&& after.visible[p][i] == (before.visible[p][i] || hit)
            &&& after.explored[p][i] == (before.explored[p][i] || hit)
        }
}

/// `after` is `before` with nothing visible and the same tiles explored.
pub open spec fn cleared(before: VisionModel, after: VisionModel) -> bool {
    &&& vision_shape(after, before.width, before.height)
    &&& after.explored == before.explored
    &&& forall|p: int, i: int| 0 <= p < PLAYERS && 0 <= i < before.width * before.height ==> !after.visible[p][i]
}

/// A call on a vision map: a reveal or a clear.
pub enum VisionCall {
    Reveal { px: i32, py: i32, sight: u8, owner: u8 },
    Clear,
}

/// `after` is what call `c` makes of `before`.
pub open spec fn follows(before: VisionModel, after: VisionModel, c: VisionCall) -> bool {
    match c {
        VisionCall::Reveal { px, py, sight, owner } => revealed(before, after, px, py, sight, owner),
        VisionCall::Clear => cleared(before, after),
    }
}

proof fn lemma_seen_upto(ms: Seq<VisionModel>, calls: Seq<VisionCall>, k: int)
    requires
        ms.len() == calls.len() + 1,
        fresh_vision(ms[0], ms[0].width, ms[0].height),
        forall|j: int| 0 <= j < calls.len() ==> follows(#[trigger] ms[j], ms[j + 1], calls[j]),
        0 <= k < ms.len(),
    ensures
        seen_is_explored(ms[k]),
        ms[k].width == ms[0].width,
        ms[k].height == ms[0].height,
    decreases k,
{
    if k > 0 {
        lemma_seen_upto(ms, calls, k - 1);
        assert(follows(ms[k - 1], ms[k], calls[k - 1]));
    }
}

/// Once a player has seen a tile, it stays explored: from a fresh map, after
/// any sequence of reveals and clears, every tile a player sees is one that
/// player has explored.
pub proof fn lemma_seen_stays_explored(ms: Seq<VisionModel>, calls: Seq<VisionCall>)
    requires
        ms.len() == calls.len() + 1,
        fresh_vision(ms[0], ms[0].width, ms[0].height),
        forall|j: int| 0 <= j < calls.len() ==> follows(#[trigger] ms[j], ms[j + 1], calls[j]),
    ensures
        seen_is_explored(ms.last()),
{
    lemma_seen_upto(ms, calls, ms.len() - 1);
}

fn all_false(n: usize) -> (v: Vec<bool>)
    ensures
        v@.len() == n,
        forall|i: int| 0 <= i < n ==> !#[trigger] v@[i],
{
    let mut v: Vec<bool> = Vec::new();
    while v.len() < n
        invariant
            v@.len() <= n,
            forall|i: int| 0 <= i < v@.len() ==> !#[trigger] v@[i],
        decreases n - v.len(),
    {
        v.push(false);
    }
    v
}

proof fn lemma_tiles_fit(w: u16, h: u16)
    ensures
        0 <= w as int * h as int <= 0xFFFF * 0xFFFF,
{
    assert(0 <= w as int * h as int <= 0xFFFF * 0xFFFF) by (nonlinear_arith)
        requires
            0 <= w <= 0xFFFF,
            0 <= h <= 0xFFFF,
    ;
}

impl VisionMap {
    /// Eight players, each with one visible and one explored flag per tile.
    pub closed spec fn wf(&self) -> bool {
        &&& self.visible@.len() == PLAYERS
        &&& self.explored@.len() == PLAYERS
        &&& forall|p: int| 0 <= p < PLAYERS ==> (#[trigger] self.visible@[p])@.len() == self.width * self.height
        &&& forall|p: int| 0 <= p < PLAYERS ==> (#[trigger] self.explored@[p])@.len() == self.width * self.height
    }

    /// A `width`x`height` map on which no player sees or has seen anything.
    pub fn new(width: u16, height: u16) -> (r: VisionMap)
        ensures
            r.wf(),
            vision_shape(r@, width as int, height as int),
            forall|p: int, i: int|
                0 <= p < PLAYERS && 0 <= i < width * height ==> !r@.visible[p][i] && !r@.explored[p][i],
            fresh_vision(r@, width as int, height as int),
            seen_is_explored(r@),
    {
        assert(width as int * height as int <= 0xFFFF * 0xFFFF) by (nonlinear_arith);
        let tile_count = width as usize * height as usize;
        let mut visible: Vec<Vec<bool>> = Vec::new();
        let mut explored: Vec<Vec<bool>> = Vec::new();
        while visible.len() < PLAYERS
            invariant
                visible@.len() == explored@.len(),
                visible@.len() <= PLAYERS,
                forall|p: int| 0 <= p < visible@.len() ==> (#[trigger] visible@[p])@.len() == tile_count,
                forall|p: int| 0 <= p < explored@.len() ==> (#[trigger] explored@[p])@.len() == tile_count,
                forall|p: int, i: int| 0 <= p < visible@.len() && 0 <= i < tile_count ==> !visible@[p]@[i] && !explored@[p]@[i],
            decreases PLAYERS - visible.len(),
        {
            visible.push(all_false(tile_count));
            explored.push(all_false(tile_count));
        }
        VisionMap { width, height, visible, explored }
    }

    /// Clears what every player currently sees; what was explored stays.
    pub fn clear_visible(&mut self)
        requires
            old(self).wf(),
        ensures
            final(self).wf(),
            vision_shape(final(self)@, old(self)@.width, old(self)@.height),
            final(self)@.explored == old(self)@.explored,
            forall|p: int, i: int|
                0 <= p < PLAYERS && 0 <= i < old(self)@.width * old(self)@.height ==> !final(self)@.visible[p][i],
            cleared(old(self)@, final(self)@),
            seen_is_explored(final(self)@),
    {
        proof {
            lemma_tiles_fit(self.width, self.height);
        }
        let n = self.width as usize * self.height as usize;
        let mut p: usize = 0;
        while p < PLAYERS
            invariant
                self.visible@.len() == PLAYERS,
                self.explored@ == old(self).explored@,
                self.width == old(self).width,
                self.height == old(self).height,
                n == self.width * self.height,
                p <= PLAYERS,
                forall|q: int| 0 <= q < PLAYERS ==> (#[trigger] self.visible@[q])@.len() == n,
                forall|q: int, i: int| 0 <= q < p && 0 <= i < n ==> !self.visible@[q]@[i],
            decreases PLAYERS - p,
        {
            let ghost vis0 = self.visible@;
            self.visible.set(p, all_false(n));
            proof {
                assert forall|q: int| 0 <= q < PLAYERS && q != p implies self.visible@[q] == vis0[q] by {}
            }
            p = p + 1;
        }
        proof {
            assert(self@.explored =~= old(self)@.explored);
        }
    }

    /// Marks as visible and explored, for player `owner`, every tile within
    /// `sight` tiles of the tile under pixel `(px, py)`. Other players, and
    /// owners beyond the eighth, are left as they are.
    pub fn reveal_around(&mut self, px: i32, py: i32, sight: u8, owner: u8)
        requires
            old(self).wf(),
        ensures
            final(self).wf(),
            vision_shape(final(self)@, old(self)@.width, old(self)@.height),
            forall|p: int, i: int|
                #![trigger final(self)@.visible[p][i]]
                #![trigger final(self)@.explored[p][i]]
                0 <= p < PLAYERS && 0 <= i < old(self)@.width * old(self)@.height ==> {
                    let hit = p == owner && in_sight(
                        trunc_div(px as int, 32),
                        trunc_div(py as int, 32),
                        sight as int,
                        i % old(self)@.width,
                        i / old(self)@.width,
                    );
                    &&& final(self)@.visible[p][i] == (old(self)@.visible[p][i] || hit)
                    &&& final(self)@.explored[p][i] == (old(self)@.explored[p][i] || hit)
                },
            revealed(old(self)@, final(self)@, px, py, sight, owner),
            seen_is_explored(old(self)@) ==> seen_is_explored(final(self)@),
    {
        let ghost w0 = self.width as int;
        let ghost h0 = self.height as int;
        if owner >= 8 {
            return;
        }
        let cx = px / 32;
        let cy = py / 32;
        let r = sight as i32;
        assert(0 <= r * r <= 65025) by (nonlinear_arith)
            requires
                0 <= r <= 255,
        ;
        let r_sq = r * r;
        let w = self.width as i32;
        let h = self.height as i32;
        let pi = owner as usize;
        let ghost gcx = trunc_div(px as int, 32);
        let ghost gcy = trunc_div(py as int, 32);
        let ghost gr = r as int;
        proof {
            assert(cx == gcx && cy == gcy);
            lemma_tiles_fit(self.width, self.height);
        }
        let ghost vis0 = self.visible@[pi as int]@;
        let ghost exp0 = self.explored@[pi as int]@;
        let y_lo = if cy - r > 0 { cy - r } else { 0 };
        let y_hi = if cy + r < h - 1 { cy + r } else { h - 1 };
        let x_lo = if cx - r > 0 { cx - r } else { 0 };
        let x_hi = if cx + r < w - 1 { cx + r } else { w - 1 };
        let mut ty = y_lo;
        proof {
            assert forall|i: int| 0 <= i < w * h implies #[trigger] swept(self.visible@[pi as int]@, vis0, w as int, gcx, gcy, gr, ty as int, 0, i)
                && swept(self.explored@[pi as int]@, exp0, w as int, gcx, gcy, gr, ty as int, 0, i) by {
                lemma_grid_index(i, w as int, h as int, 0, 0);
                lemma_sight_box(gcx, gcy, gr, i % (w as int), i / (w as int));
            }
        }
        while ty <= y_hi
            invariant
                self.width == old(self).width,
                self.height == old(self).height,
                w == self.width,
                h == self.height,
                w0 == w,
                h0 == h,
                w as int * h as int <= 0xFFFF * 0xFFFF,
                pi == owner,
                pi < PLAYERS,
                r == sight,
                gr == r,
                r_sq == r * r,
                cx == gcx,
                cy == gcy,
                -0x400_0000 <= cx <= 0x400_0000,
                -0x400_0000 <= cy <= 0x400_0000,
                y_lo == (if cy - r > 0 { cy - r } else { 0 }),
                y_hi == (if cy + r < h - 1 { cy + r } else { h - 1 }),
                x_lo == (if cx - r > 0 { cx - r } else { 0 }),
                x_hi == (if cx + r < w - 1 { cx + r } else { w - 1 }),
                y_lo <= ty,
                ty <= y_hi + 1 || ty == y_lo,
                self.visible@.len() == PLAYERS,
                self.explored@.len() == PLAYERS,
                forall|q: int| 0 <= q < PLAYERS ==> (#[trigger] self.visible@[q])@.len() == w * h,
                forall|q: int| 0 <= q < PLAYERS ==> (#[trigger] self.explored@[q])@.len() == w * h,
                forall|q: int| 0 <= q < PLAYERS && q != pi ==> #[trigger] self.visible@[q] == old(self).visible@[q],
                forall|q: int| 0 <= q < PLAYERS && q != pi ==> #[trigger] self.explored@[q] == old(self).explored@[q],
                vis0 == old(self).visible@[pi as int]@,
                exp0 == old(self).explored@[pi as int]@,
                forall|i: int| 0 <= i < w * h ==> #[trigger] swept(self.visible@[pi as int]@, vis0, w as int, gcx, gcy, gr, ty as int, 0, i)
                    && swept(self.explored@[pi as int]@, exp0, w as int, gcx, gcy, gr, ty as int, 0, i),
            decreases y_hi + 1 - ty,
        {
            let mut tx = x_lo;
            proof {
                assert forall|i: int| 0 <= i < w * h implies #[trigger] swept(self.visible@[pi as int]@, vis0, w as int, gcx, gcy, gr, ty as int, tx as int, i)
                    && swept(self.explored@[pi as int]@, exp0, w as int, gcx, gcy, gr, ty as int, tx as int, i) by {
                    lemma_grid_index(i, w as int, h as int, 0, 0);
                    lemma_sight_box(gcx, gcy, gr, i % (w as int), i / (w as int));
                    assert(swept(self.visible@[pi as int]@, vis0, w as int, gcx, gcy, gr, ty as int, 0, i));
                }
            }
            while tx <= x_hi
                invariant
                    self.width == old(self).width,
                    self.height == old(self).height,
                    w == self.width,
                    h == self.height,
                    w as int * h as int <= 0xFFFF * 0xFFFF,
                    pi == owner,
                    pi < PLAYERS,
                    r == sight,
                    gr == r,
                    r_sq == r * r,
                    cx == gcx,
                    cy == gcy,
                    -0x400_0000 <= cx <= 0x400_0000,
                    -0x400_0000 <= cy <= 0x400_0000,
                    y_lo == (if cy - r > 0 { cy - r } else { 0 }),
                    y_hi == (if cy + r < h - 1 { cy + r } else { h - 1 }),
                    x_lo == (if cx - r > 0 { cx - r } else { 0 }),
                    x_hi == (if cx + r < w - 1 { cx + r } else { w - 1 }),
                    y_lo <= ty <= y_hi,
                    x_lo <= tx,
                    tx <= x_hi + 1 || tx == x_lo,
                    self.visible@.len() == PLAYERS,
                    self.explored@.len() == PLAYERS,
                    forall|q: int| 0 <= q < PLAYERS ==> (#[trigger] self.visible@[q])@.len() == w * h,
                    forall|q: int| 0 <= q < PLAYERS ==> (#[trigger] self.explored@[q])@.len() == w * h,
                    forall|q: int| 0 <= q < PLAYERS && q != pi ==> #[trigger] self.visible@[q] == old(self).visible@[q],
                    forall|q: int| 0 <= q < PLAYERS && q != pi ==> #[trigger] self.explored@[q] == old(self).explored@[q],
                    vis0 == old(self).visible@[pi as int]@,
                    exp0 == old(self).explored@[pi as int]@,
                    forall|i: int| 0 <= i < w * h ==> #[trigger] swept(self.visible@[pi as int]@, vis0, w as int, gcx, gcy, gr, ty as int, tx as int, i)
                        && swept(self.explored@[pi as int]@, exp0, w as int, gcx, gcy, gr, ty as int, tx as int, i),
                decreases x_hi + 1 - tx,
            {
                let dx = tx - cx;
                let dy = ty - cy;
                proof {
                    assert(0 <= dx * dx <= 65025 && 0 <= dy * dy <= 65025) by (nonlinear_arith)
                        requires
                            -255 <= dx <= 255,
                            -255 <= dy <= 255,
                    ;
                }
                let seen = dx * dx + dy * dy <= r_sq;
                let ghost vp = self.visible@[pi as int]@;
                let ghost ep = self.explored@[pi as int]@;
                let ghost gidx = ty * w + tx;
                proof {
                    assert(seen == in_sight(gcx, gcy, gr, tx as int, ty as int));
                    assert(0 <= ty * w + tx < w * h) by (nonlinear_arith)
                        requires
                            0 <= tx < w,
                            0 <= ty < h,
                    ;
                }
                if seen {
                    let idx = ty as usize * w as usize + tx as usize;
                    let ghost v1 = self.visible@;
                    let ghost e1 = self.explored@;
                    self.visible[pi].set(idx, true);
                    self.explored[pi].set(idx, true);
                    proof {
                        assert forall|q: int| 0 <= q < PLAYERS && q != pi implies #[trigger] self.visible@[q] == old(self).visible@[q] by {
                            assert(self.visible@[q] == v1[q]);
                        }
                        assert forall|q: int| 0 <= q < PLAYERS && q != pi implies #[trigger] self.explored@[q] == old(self).explored@[q] by {
                            assert(self.explored@[q] == e1[q]);
                        }
                    }
                }
                let ghost old_tx = tx as int;
                tx = tx + 1;
                proof {
                    assert forall|i: int| 0 <= i < w * h implies #[trigger] swept(self.visible@[pi as int]@, vis0, w as int, gcx, gcy, gr, ty as int, tx as int, i)
                        && swept(self.explored@[pi as int]@, exp0, w as int, gcx, gcy, gr, ty as int, tx as int, i) by {
                        lemma_grid_index(i, w as int, h as int, old_tx, ty as int);
                        assert(swept(vp, vis0, w as int, gcx, gcy, gr, ty as int, old_tx, i));
                        assert(swept(ep, exp0, w as int, gcx, gcy, gr, ty as int, old_tx, i));
                        if !(seen && i == gidx) {
                            assert(self.visible@[pi as int]@[i] == vp[i]);
                            assert(self.explored@[pi as int]@[i] == ep[i]);
                        }
                    }
                }
            }
            proof {
                assert forall|i: int| 0 <= i < w * h implies #[trigger] swept(self.visible@[pi as int]@, vis0, w as int, gcx, gcy, gr, ty as int + 1, 0, i)
                    && swept(self.explored@[pi as int]@, exp0, w as int, gcx, gcy, gr, ty as int + 1, 0, i) by {
                    lemma_grid_index(i, w as int, h as int, 0, 0);
                    lemma_sight_box(gcx, gcy, gr, i % (w as int), i / (w as int));
                    assert(swept(self.visible@[pi as int]@, vis0, w as int, gcx, gcy, gr, ty as int, tx as int, i));
                }
            }
            ty = ty + 1;
        }
        proof {
            assert forall|p: int, i: int|
                #![trigger self@.visible[p][i]]
                #![trigger self@.explored[p][i]]
                0 <= p < PLAYERS && 0 <= i < old(self)@.width * old(self)@.height implies {
                    let hit = p == owner && in_sight(
                        trunc_div(px as int, 32),
                        trunc_div(py as int, 32),
                        sight as int,
                        i % old(self)@.width,
                        i / old(self)@.width,
                    );
                    &&& self@.visible[p][i] == (old(self)@.visible[p][i] || hit)
                    &&& self@.explored[p][i] == (old(self)@.explored[p][i] || hit)
                } by {
                assert(self@.visible[p] == self.visible@[p]@);
                assert(self@.explored[p] == self.explored@[p]@);
                assert(old(self)@.visible[p] == old(self).visible@[p]@);
                assert(old(self)@.explored[p] == old(self).explored@[p]@);
                if p == pi {
                    lemma_grid_index(i, w as int, h as int, 0, 0);
                    lemma_sight_box(gcx, gcy, gr, i % (w as int), i / (w as int));
                    assert(swept(self.visible@[pi as int]@, vis0, w as int, gcx, gcy, gr, ty as int, 0, i));
                    assert(swept(self.explored@[pi as int]@, exp0, w as int, gcx, gcy, gr, ty as int, 0, i));
                } else {
                    assert(self.visible@[p] == old(self).visible@[p]);
                    assert(self.explored@[p] == old(self).explored@[p]);
                }
            }
        }
    }

    /// Whether tile `(tx, ty)` is currently visible to `player` (false outside the map).
    pub fn is_visible(&self, player: u8, tx: u16, ty: u16) -> (r: bool)
        requires
            self.wf(),
        ensures
            r == (player < PLAYERS && tx < self@.width && ty < self@.height && self@.visible[player as int][ty * self@.width + tx]),
    {
        if player >= 8 || tx >= self.width || ty >= self.height {
            return false;
        }
        proof {
            lemma_tiles_fit(self.width, self.height);
            assert(ty * self.width + tx < self.width * self.height) by (nonlinear_arith)
                requires
                    tx < self.width,
                    ty < self.height,
            ;
        }
        self.visible[player as usize][ty as usize * self.width as usize + tx as usize]
    }

    /// Whether tile `(tx, ty)` has ever been seen by `player` (false outside the map).
    pub fn is_explored(&self, player: u8, tx: u16, ty: u16) -> (r: bool)
        requires
            self.wf(),
        ensures
            r == (player < PLAYERS && tx < self@.width && ty < self@.height && self@.explored[player as int][ty * self@.width + tx]),
    {
        if player >= 8 || tx >= self.width || ty >= self.height {
            return false;
        }
        proof {
            lemma_tiles_fit(self.width, self.height);
            assert(ty * self.width + tx < self.width * self.height) by (nonlinear_arith)
                requires
                    tx < self.width,
                    ty < self.height,
            ;
        }
        self.explored[player as usize][ty as usize * self.width as usize + tx as usize]
    }

    /// The player's grid, one byte per tile: 0 never seen, 1 explored but not
    /// visible now, 2 visible. Empty for a player beyond the eighth.
    pub fn visibility_grid(&self, player: u8) -> (g: Vec<u8>)
        requires
            self.wf(),
        ensures
            player >= PLAYERS ==> g@.len() == 0,
            player < PLAYERS ==> g@.len() == self@.width * self@.height && forall|i: int|
                0 <= i < g@.len() ==> #[trigger] g@[i] == (if self@.visible[player as int][i] {
                    2u8
                } else if self@.explored[player as int][i] {
                    1u8
                } else {
                    0u8
                }),
    {
        if player >= 8 {
            return Vec::new();
        }
        let pi = player as usize;
        proof {
            lemma_tiles_fit(self.width, self.height);
        }
        let len = self.width as usize * self.height as usize;
        let mut grid: Vec<u8> = Vec::new();
        let mut i: usize = 0;
        while i < len
            invariant
                len == self.width * self.height,
                pi == player,
                pi < PLAYERS,
                self.visible@.len() == PLAYERS,
                self.explored@.len() == PLAYERS,
                self.visible@[pi as int]@.len() == len,
                self.explored@[pi as int]@.len() == len,
                i <= len,
                grid@.len() == i,
                forall|k: int| 0 <= k < i ==> #[trigger] grid@[k] == (if self@.visible[pi as int][k] {
                    2u8
                } else if self@.explored[pi as int][k] {
                    1u8
                } else {
                    0u8
                }),
            decreases len - i,
        {
            let cell: u8 = if self.visible[pi][i] {
                2
            } else if self.explored[pi][i] {
                1
            } else {
                0
            };
            grid.push(cell);
            i = i + 1;
        }
        grid
    }
}

/// After sweeping rows before `ty`, and columns before `tx` of row `ty`,
/// tile `i` is set exactly when it was set at the start or lies within sight.
spec fn swept(cur: Seq<bool>, orig: Seq<bool>, w: int, cx: int, cy: int, r: int, ty: int, tx: int, i: int) -> bool {
    let col = i % w;
    let row = i / w;
    cur[i] == (orig[i] || ((row < ty || (row == ty && col < tx)) && in_sight(cx, cy, r, col, row)))
}

proof fn lemma_grid_index(i: int, w: int, h: int, tx: int, ty: int)
    requires
        0 <= i < w * h,
        w >= 0,
        h >= 0,
    ensures
        w > 0,
        (i / w == ty && i % w == tx) <==> i == ty * w + tx && 0 <= tx < w,
        0 <= i % w < w,
        0 <= i / w < h,
{
    assert(w > 0) by (nonlinear_arith)
        requires
            0 <= i < w * h,
            w >= 0,
            h >= 0,
    ;
    vstd::arithmetic::div_mod::lemma_fundamental_div_mod(i, w);
    vstd::arithmetic::div_mod::lemma_mod_pos_bound(i, w);
    assert(i == (i / w) * w + i % w) by (nonlinear_arith)
        requires
            i == w * (i / w) + i % w,
    ;
    if i == ty * w + tx && 0 <= tx < w {
        crate::map::lemma_row_col(i, w, ty, tx);
    }
    assert(0 <= i / w < h) by (nonlinear_arith)
        requires
            i == (i / w) * w + i % w,
            0 <= i % w < w,
            0 <= i < w * h,
            w > 0,
    ;
}

proof fn lemma_sight_box(cx: int, cy: int, r: int, tx: int, ty: int)
    requires
        r >= 0,
    ensures
        in_sight(cx, cy, r, tx, ty) ==> cx - r <= tx <= cx + r && cy - r <= ty <= cy + r,
{
    if in_sight(cx, cy, r, tx, ty) {
        assert(cx - r <= tx <= cx + r && cy - r <= ty <= cy + r) by (nonlinear_arith)
            requires
                (tx - cx) * (tx - cx) + (ty - cy) * (ty - cy) <= r * r,
                r >= 0,
        ;
    }
}

} // verus!
