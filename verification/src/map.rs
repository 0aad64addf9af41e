//! A queryable map: per-tile flags and the full mini-tile grid, computed from
//! CHK terrain and tileset data.
use vstd::prelude::*;
use crate::chk::{self, mtxm_tiles, scan_terrain, sections_from, terrain_complete, terrain_error, ChkTerrain};
use crate::error::{EngineError, Result};
use crate::tile::{has, mini_height_of, tile_height_of, GroundHeight, MiniTile, Tile, TileFlags};
use crate::tileset::{group_of, subtile_of, ts_model, ts_model_bytes, Tileset, TilesetData, TilesetModel};

verus! {

/// Number of the first `n` flag words that have `bit` set.
pub open spec fn count_flag(mf: Seq<u16>, bit: u16, n: int) -> int
    decreases n,
{
    if n <= 0 {
        0
    } else {
        count_flag(mf, bit, n - 1) + (if mf[n - 1] & bit != 0 { 1int } else { 0int })
    }
}

/// Mini-tile flags of a raw tile id, when both its CV5 group and its megatile exist.
pub open spec fn lookup_minis(ts: TilesetModel, tile_id: u16) -> Option<Seq<u16>> {
    let g = group_of(tile_id);
    if g < ts.groups.len() {
        let m = ts.groups[g].1[subtile_of(tile_id)];
        if m < ts.megatiles.len() {
            Some(ts.megatiles[m as int])
        } else {
            None
        }
    } else {
        None
    }
}

/// Tile flags summarised from 16 mini-tile flags and the group's CV5 flags:
/// walkable when more than 12 mini-tiles are (else unwalkable); partially
/// walkable when some but not all are; middle when fewer than 12 are high
/// and at least 12 are middle or high; high when at least 12 are high; very
/// high when any is; plus the CV5 cover, creep, unbuildable and occupied bits.
pub open spec fn summary_flags(mf: Seq<u16>, cv5: u16) -> u16 {
    let wc = count_flag(mf, MiniTile::WALKABLE, 16);
    let mc = count_flag(mf, MiniTile::MIDDLE, 16);
    let hc = count_flag(mf, MiniTile::HIGH, 16);
    let vc = count_flag(mf, MiniTile::VERY_HIGH, 16);
    let a: u16 = if wc > 12 { 0x0001 } else { 0x0004 };
    let b: u16 = if wc > 0 && wc != 16 { 0x2000 } else { 0 };
    let c: u16 = if hc < 12 && mc + hc >= 12 { 0x0200 } else { 0 };
    let d: u16 = if hc >= 12 { 0x0400 } else { 0 };
    let e: u16 = if vc > 0 { 0x0100 } else { 0 };
    (a | b | c | d | e) | (cv5 & 0x08D0u16)
}

/// Flags of a raw tile id before border adjustment: unwalkable when its
/// group or megatile is missing, else the summary of its mini-tiles.
pub open spec fn tile_flags_spec(ts: TilesetModel, tile_id: u16) -> u16 {
    match lookup_minis(ts, tile_id) {
        Some(mf) => summary_flags(mf, ts.groups[group_of(tile_id)].0),
        None => TileFlags::UNWALKABLE,
    }
}

/// Flags of mini-tile `j` (row-major in its tile) of a raw tile id; zero when
/// the tile's group or megatile is missing.
pub open spec fn mini_flags_spec(ts: TilesetModel, tile_id: u16, j: int) -> u16 {
    match lookup_minis(ts, tile_id) {
        Some(mf) => mf[j],
        None => 0,
    }
}

/// Whether tile `i` of a `w`x`h` map lies on the forced border: the bottom
/// row, and the five leftmost and five rightmost tiles of the row above it
/// (only on maps at least 5 wide and 2 high).
pub open spec fn on_border(i: int, w: int, h: int) -> bool {
    let tx = i % w;
    let ty = i / w;
    h >= 2 && w >= 5 && (ty == h - 1 || (ty == h - 2 && (tx < 5 || tx >= w - 5)))
}

/// Border tiles lose walkable, creep and partially-walkable and become unbuildable.
pub open spec fn border_flags(flags: u16, i: int, w: int, h: int) -> u16 {
    if on_border(i, w, h) {
        (flags & !0x2041u16) | 0x0080u16
    } else {
        flags
    }
}

/// The tile built for a raw tile id, before border adjustment.
pub open spec fn built_tile(ts: TilesetModel, tile_id: u16) -> Tile {
    Tile { flags: tile_flags_spec(ts, tile_id), raw_tile_id: tile_id }
}

/// Tile `t` at index `i` of a `w`x`h` map after border adjustment.
pub open spec fn bordered(t: Tile, i: int, w: int, h: int) -> Tile {
    Tile { flags: border_flags(t.flags, i, w, h), raw_tile_id: t.raw_tile_id }
}

/// Abstract content of a map: dimensions in tiles, tileset, tiles (row-major,
/// `width * height`) and mini-tiles (row-major, `4*width` by `4*height`).
pub ghost struct MapModel {
    pub width: int,
    pub height: int,
    pub tileset: Tileset,
    pub tiles: Seq<Tile>,
    pub minis: Seq<MiniTile>,
}

/// A fully parsed, queryable map (tiles and mini-tiles).
#[derive(Debug)]
pub struct TileMap {
    width: u16,
    height: u16,
    tileset: Tileset,
    tiles: Vec<Tile>,
    mini_tiles: Vec<MiniTile>,
}

impl View for TileMap {
    type V = MapModel;

    closed spec fn view(&self) -> MapModel {
        MapModel {
            width: self.width as int,
            height: self.height as int,
            tileset: self.tileset,
            tiles: self.tiles@,
            minis: self.mini_tiles@,
        }
    }
}

/// Whether `m` is the map built from a `w`x`h` grid of raw tile ids and tileset `ts`.
pub open spec fn map_from(m: MapModel, w: int, h: int, ids: Seq<u16>, ts: TilesetModel) -> bool {
    &&& m.width == w
    &&& m.height == h
    &&& m.tiles.len() == w * h
    &&& m.minis.len() == 16 * w * h
    &&& forall|i: int|
        0 <= i < w * h ==> #[trigger] m.tiles[i] == bordered(built_tile(ts, ids[i]), i, w, h)
    &&& forall|k: int|
        0 <= k < 16 * w * h ==> (#[trigger] m.minis[k]).flags == mini_flags_spec(
            ts,
            ids[(k / (4 * w)) / 4 * w + (k % (4 * w)) / 4],
            ((k / (4 * w)) % 4) * 4 + (k % (4 * w)) % 4,
        )
}

impl TileMap {
    #[verifier::type_invariant]
    closed spec fn wf(&self) -> bool {
        &&& self.tiles@.len() == self.width * self.height
        &&& self.mini_tiles@.len() == 16 * self.width * self.height
    }

    /// Builds a map from parsed terrain and tileset data. The tileset comes
    /// from the ERA index modulo 8; each tile's flags are summarised from its
    /// mini-tiles (unwalkable when its group or megatile is missing) and the
    /// border rows are then forced unwalkable and unbuildable.
    pub fn from_terrain(terrain: &ChkTerrain, tileset_data: &TilesetData) -> (r: Result<TileMap>)
        requires
            terrain.tile_ids@.len() >= terrain.width * terrain.height,
            16 * terrain.width * terrain.height <= usize::MAX,
        ensures
            r matches Ok(m) && map_from(
                m@,
                terrain.width as int,
                terrain.height as int,
                terrain.tile_ids@,
                ts_model(tileset_data),
            ) && m@.tileset
                == crate::tileset::tileset_of((terrain.tileset_index % 8) as int),
    {
        let tileset = Tileset::from_index(terrain.tileset_index)?;
        let width = terrain.width;
        let height = terrain.height;
        let w = width as usize;
        let h = height as usize;
        proof {
            assert(w * h <= 16 * w * h) by (nonlinear_arith)
                requires
                    w >= 0,
                    h >= 0,
            ;
        }
        let mini_width = w * 4;
        let ghost ts = ts_model(tileset_data);
        let mut tiles: Vec<Tile> = Vec::new();
        let mut mini_tiles: Vec<MiniTile> = Vec::new();
        let mut ty: usize = 0;
        let mut base: usize = 0;
        while ty < h
            invariant
                ty <= h,
                ts == ts_model(tileset_data),
                w == terrain.width,
                h == terrain.height,
                mini_width == 4 * w,
                16 * w * h <= usize::MAX,
                w * h <= 16 * w * h,
                terrain.tile_ids@.len() >= w * h,
                base == ty * w,
                base <= w * h,
                tiles@.len() == base,
                mini_tiles@.len() == 16 * base,
                forall|i: int| 0 <= i < base ==> #[trigger] tiles@[i] == built_tile(ts, terrain.tile_ids@[i]),
                forall|k: int|
                    0 <= k < 16 * base ==> (#[trigger] mini_tiles@[k]).flags == mini_flags_spec(
                        ts,
                        terrain.tile_ids@[(k / (4 * w)) / 4 * w + (k % (4 * w)) / 4],
                        ((k / (4 * w)) % 4) * 4 + (k % (4 * w)) % 4,
                    ),
            decreases h - ty,
        {
            proof {
                lemma_mul_step(ty as int, w as int);
                assert(ty * w + w <= w * h) by (nonlinear_arith)
                    requires
                        ty < h,
                        w >= 0,
                ;
            }
            // This row's tiles, with their mini-tiles.
            let mut row_minis: Vec<[MiniTile; 16]> = Vec::new();
            let mut tx: usize = 0;
            while tx < w
                invariant
                    tx <= w,
                    ts == ts_model(tileset_data),
                    base + w <= w * h,
                    w * h <= 16 * w * h,
                    16 * w * h <= usize::MAX,
                    terrain.tile_ids@.len() >= w * h,
                    tiles@.len() == base + tx,
                    row_minis@.len() == tx,
                    forall|i: int|
                        0 <= i < base + tx ==> #[trigger] tiles@[i] == built_tile(ts, terrain.tile_ids@[i]),
                    forall|c: int, j: int|
                        0 <= c < tx && 0 <= j < 16 ==> (#[trigger] row_minis@[c]@[j]).flags
                            == mini_flags_spec(ts, terrain.tile_ids@[base + c], j),
                decreases w - tx,
            {
                let (tile, minis) = compute_tile(terrain.tile_ids[base + tx], tileset_data);
                tiles.push(tile);
                row_minis.push(minis);
                tx = tx + 1;
            }
            // Four rows of mini-tiles.
            let mut my: usize = 0;
            proof {
                assert(16 * base <= 16 * w * h) by (nonlinear_arith)
                    requires
                        base <= w * h,
                ;
            }
            let mut mbase: usize = 16 * base;
            proof {
                assert(16 * base == (4 * ty) * (4 * w)) by (nonlinear_arith)
                    requires
                        base == ty * w,
                ;
                assert(16 * base + 16 * w <= 16 * w * h) by (nonlinear_arith)
                    requires
                        base + w <= w * h,
                ;
            }
            while my < 4
                invariant
                    my <= 4,
                    ty < h,
                    base == ty * w,
                    mini_width == 4 * w,
                    16 * base + 16 * w <= 16 * w * h,
                    16 * w * h <= usize::MAX,
                    mbase == 16 * base + my * (4 * w),
                    mbase == (4 * ty + my) * (4 * w),
                    row_minis@.len() == w,
                    forall|c: int, j: int|
                        0 <= c < w && 0 <= j < 16 ==> (#[trigger] row_minis@[c]@[j]).flags
                            == mini_flags_spec(ts, terrain.tile_ids@[base + c], j),
                    mini_tiles@.len() == mbase,
                    forall|k: int|
                        0 <= k < mbase ==> (#[trigger] mini_tiles@[k]).flags == mini_flags_spec(
                            ts,
                            terrain.tile_ids@[(k / (4 * w)) / 4 * w + (k % (4 * w)) / 4],
                            ((k / (4 * w)) % 4) * 4 + (k % (4 * w)) % 4,
                        ),
                decreases 4 - my,
            {
                let mut col: usize = 0;
                while col < mini_width
                    invariant
                        col <= mini_width,
                        my < 4,
                        ty < h,
                        base == ty * w,
                        mini_width == 4 * w,
                        16 * base + 16 * w <= 16 * w * h,
                        16 * w * h <= usize::MAX,
                        mbase == 16 * base + my * (4 * w),
                        mbase == (4 * ty + my) * (4 * w),
                        row_minis@.len() == w,
                        forall|c: int, j: int|
                            0 <= c < w && 0 <= j < 16 ==> (#[trigger] row_minis@[c]@[j]).flags
                                == mini_flags_spec(ts, terrain.tile_ids@[base + c], j),
                        mini_tiles@.len() == mbase + col,
                        forall|k: int|
                            0 <= k < mbase + col ==> (#[trigger] mini_tiles@[k]).flags
                                == mini_flags_spec(
                                ts,
                                terrain.tile_ids@[(k / (4 * w)) / 4 * w + (k % (4 * w)) / 4],
                                ((k / (4 * w)) % 4) * 4 + (k % (4 * w)) % 4,
                            ),
                    decreases mini_width - col,
                {
                    let m = row_minis[col / 4][my * 4 + col % 4];
                    proof {
                        let k = mbase + col;
                        vstd::arithmetic::div_mod::lemma_fundamental_div_mod_converse(
                            k,
                            4 * w,
                            4 * ty + my,
                            col as int,
                        );
                        vstd::arithmetic::div_mod::lemma_fundamental_div_mod_converse(
                            4 * ty + my,
                            4,
                            ty as int,
                            my as int,
                        );
                        assert(mbase + col < 16 * w * h) by (nonlinear_arith)
                            requires
                                mbase == 16 * base + my * (4 * w),
                                my < 4,
                                col < 4 * w,
                                16 * base + 16 * w <= 16 * w * h,
                        ;
                    }
                    mini_tiles.push(m);
                    col = col + 1;
                }
                proof {
                    assert(mbase + 4 * w == (4 * ty + my + 1) * (4 * w)) by (nonlinear_arith)
                        requires
                            mbase == (4 * ty + my) * (4 * w),
                    ;
                    assert(mbase + 4 * w == 16 * base + (my + 1) * (4 * w)) by (nonlinear_arith)
                        requires
                            mbase == 16 * base + my * (4 * w),
                    ;
                    assert(mbase + 4 * w <= 16 * w * h) by (nonlinear_arith)
                        requires
                            mbase == 16 * base + my * (4 * w),
                            my < 4,
                            16 * base + 16 * w <= 16 * w * h,
                    ;
                }
                mbase = mbase + mini_width;
                my = my + 1;
            }
            proof {
                assert(16 * base + 4 * (4 * w) == 16 * (base + w)) by (nonlinear_arith);
            }
            base = base + w;
            ty = ty + 1;
        }
        proof {
            assert(base == w * h) by (nonlinear_arith)
                requires
                    base == ty * w,
                    ty == h,
            ;
        }
        apply_border_flags(&mut tiles, w, h);
        proof {
            assert(16 * base == 16 * w * h) by (nonlinear_arith)
                requires
                    base == w * h,
            ;
        }
        let map = TileMap { width, height, tileset, tiles, mini_tiles };
        Ok(map)
    }

    /// Builds a map from raw CHK, CV5 and VF4 bytes: CHK sections, then
    /// terrain, then tileset data; the first failure is returned.
    pub fn from_chk(chk_data: &[u8], cv5_data: &[u8], vf4_data: &[u8]) -> (r: Result<TileMap>)
        requires
            ({
                let sc = scan_terrain(sections_from(chk_data@, 0));
                terrain_complete(sc) ==> 16 * sc.0.unwrap().0 * sc.0.unwrap().1 <= usize::MAX
            }),
        ensures
            ({
                let sc = scan_terrain(sections_from(chk_data@, 0));
                &&& !terrain_complete(sc) ==> (r matches Err(e) && terrain_error(sc, e))
                &&& terrain_complete(sc) && cv5_data@.len() % 52 != 0 ==> (r matches Err(
                    EngineError::TilesetDataTooShort { file, .. },
                ) && file@ == "cv5"@)
                &&& terrain_complete(sc) && cv5_data@.len() % 52 == 0 && vf4_data@.len() % 32 != 0
                    ==> (r matches Err(EngineError::TilesetDataTooShort { file, .. }) && file@
                    == "vf4"@)
                &&& terrain_complete(sc) && cv5_data@.len() % 52 == 0 && vf4_data@.len() % 32 == 0
                    ==> (r matches Ok(m) && map_from(
                    m@,
                    sc.0.unwrap().0,
                    sc.0.unwrap().1,
                    mtxm_tiles(sc.2.unwrap(), sc.0.unwrap().0, sc.0.unwrap().1),
                    ts_model_bytes(cv5_data@, vf4_data@),
                ) && m@.tileset == crate::tileset::tileset_of(sc.1.unwrap() % 8))
            }),
    {
        let sections = chk::parse_sections(chk_data)?;
        let terrain = chk::extract_terrain(sections.as_slice())?;
        let tileset_data = TilesetData::from_bytes(cv5_data, vf4_data)?;
        Self::from_terrain(&terrain, &tileset_data)
    }
}

impl TileMap {
    /// Width in 32-pixel tiles.
    pub fn width(&self) -> (r: u16)
        ensures
            r == self@.width,
    {
        self.width
    }

    /// Height in 32-pixel tiles.
    pub fn height(&self) -> (r: u16)
        ensures
            r == self@.height,
    {
        self.height
    }

    /// Width in pixels.
    pub fn width_px(&self) -> (r: u32)
        ensures
            r == self@.width * 32,
    {
        self.width as u32 * 32
    }

    /// Height in pixels.
    pub fn height_px(&self) -> (r: u32)
        ensures
            r == self@.height * 32,
    {
        self.height as u32 * 32
    }

    /// The map's tileset.
    pub fn tileset(&self) -> (r: Tileset)
        ensures
            r == self@.tileset,
    {
        self.tileset
    }

    /// The tile at grid position `(tx, ty)`, or `None` outside the map.
    pub fn tile(&self, tx: u16, ty: u16) -> (r: Option<&Tile>)
        ensures
            tx < self@.width && ty < self@.height ==> r == Some(&self@.tiles[ty * self@.width + tx]),
            !(tx < self@.width && ty < self@.height) ==> r is None,
    {
        proof {
            use_type_invariant(self);
        }
        if tx >= self.width || ty >= self.height {
            return None;
        }
        proof {
            assert(ty * self.width + tx < self.width * self.height) by (nonlinear_arith)
                requires
                    tx < self.width,
                    ty < self.height,
            ;
        }
        let _n = self.tiles.len();
        Some(&self.tiles[ty as usize * self.width as usize + tx as usize])
    }

    /// Whether tile `(tx, ty)` is inside the map and fully walkable.
    pub fn is_tile_walkable(&self, tx: u16, ty: u16) -> (r: bool)
        ensures
            r == (tx < self@.width && ty < self@.height && has(
                self@.tiles[ty * self@.width + tx].flags,
                TileFlags::WALKABLE,
            )),
    {
        match self.tile(tx, ty) {
            Some(t) => t.is_walkable(),
            None => false,
        }
    }

    /// Ground height of tile `(tx, ty)`, or `None` outside the map.
    pub fn tile_ground_height(&self, tx: u16, ty: u16) -> (r: Option<GroundHeight>)
        ensures
            tx < self@.width && ty < self@.height ==> r == Some(
                tile_height_of(self@.tiles[ty * self@.width + tx].flags),
            ),
            !(tx < self@.width && ty < self@.height) ==> r is None,
    {
        match self.tile(tx, ty) {
            Some(t) => Some(t.ground_height()),
            None => None,
        }
    }

    /// The mini-tile at walk-grid position `(mx, my)`, or `None` outside the map.
    pub fn mini_tile(&self, mx: u16, my: u16) -> (r: Option<&MiniTile>)
        requires
            self@.width * 4 <= u16::MAX,
            self@.height * 4 <= u16::MAX,
        ensures
            mx < 4 * self@.width && my < 4 * self@.height ==> r == Some(
                &self@.minis[my * (4 * self@.width) + mx],
            ),
            !(mx < 4 * self@.width && my < 4 * self@.height) ==> r is None,
    {
        proof {
            use_type_invariant(self);
        }
        let mw = self.width * 4;
        let mh = self.height * 4;
        if mx >= mw || my >= mh {
            return None;
        }
        proof {
            assert(my * mw + mx < 16 * self.width * self.height) by (nonlinear_arith)
                requires
                    mx < mw,
                    my < mh,
                    mw == 4 * self.width,
                    mh == 4 * self.height,
            ;
        }
        let _n = self.mini_tiles.len();
        Some(&self.mini_tiles[my as usize * mw as usize + mx as usize])
    }

    /// Whether mini-tile `(mx, my)` is inside the map and walkable.
    pub fn is_walkable(&self, mx: u16, my: u16) -> (r: bool)
        requires
            self@.width * 4 <= u16::MAX,
            self@.height * 4 <= u16::MAX,
        ensures
            r == (mx < 4 * self@.width && my < 4 * self@.height && self@.minis[my * (4 * self@.width)
                + mx].flags & MiniTile::WALKABLE != 0),
    {
        match self.mini_tile(mx, my) {
            Some(m) => m.is_walkable(),
            None => false,
        }
    }

    /// Ground height of mini-tile `(mx, my)`, or `None` outside the map.
    pub fn ground_height(&self, mx: u16, my: u16) -> (r: Option<GroundHeight>)
        requires
            self@.width * 4 <= u16::MAX,
            self@.height * 4 <= u16::MAX,
        ensures
            mx < 4 * self@.width && my < 4 * self@.height ==> r == Some(
                mini_height_of(self@.minis[my * (4 * self@.width) + mx].flags),
            ),
            !(mx < 4 * self@.width && my < 4 * self@.height) ==> r is None,
    {
        match self.mini_tile(mx, my) {
            Some(m) => Some(m.ground_height()),
            None => None,
        }
    }

    /// Whether pixel `(px, py)` is walkable: the mini-tile `(px / 8, py / 8)`;
    /// a pixel off the map is not.
    pub fn is_walkable_px(&self, px: u32, py: u32) -> (r: bool)
        requires
            self@.width * 4 <= u16::MAX,
            self@.height * 4 <= u16::MAX,
        ensures
            ({
                let mx = px / 8;
                let my = py / 8;
                r == (mx < 4 * self@.width && my < 4 * self@.height && self@.minis[my * (4
                    * self@.width) + mx].flags & MiniTile::WALKABLE != 0)
            }),
    {
        let mx = px / 8;
        let my = py / 8;
        if mx >= 4 * (self.width() as u32) || my >= 4 * (self.height() as u32) {
            return false;
        }
        self.is_walkable(mx as u16, my as u16)
    }

    /// Ground height at pixel `(px, py)`, through the mini-tile
    /// `(px / 8, py / 8)`; none for a pixel off the map.
    pub fn ground_height_px(&self, px: u32, py: u32) -> (r: Option<GroundHeight>)
        requires
            self@.width * 4 <= u16::MAX,
            self@.height * 4 <= u16::MAX,
        ensures
            ({
                let mx = px / 8;
                let my = py / 8;
                &&& mx < 4 * self@.width && my < 4 * self@.height ==> r == Some(
                    mini_height_of(self@.minis[my * (4 * self@.width) + mx].flags),
                )
                &&& !(mx < 4 * self@.width && my < 4 * self@.height) ==> r is None
            }),
    {
        let mx = px / 8;
        let my = py / 8;
        if mx >= 4 * (self.width() as u32) || my >= 4 * (self.height() as u32) {
            return None;
        }
        self.ground_height(mx as u16, my as u16)
    }

    /// The tiles, row-major (`width * height`).
    pub fn tiles(&self) -> (r: &[Tile])
        ensures
            r@ == self@.tiles,
            r@.len() == self@.width * self@.height,
    {
        proof {
            use_type_invariant(self);
        }
        self.tiles.as_slice()
    }

    /// The mini-tiles, row-major (`4 * width` by `4 * height`).
    pub fn mini_tiles(&self) -> (r: &[MiniTile])
        ensures
            r@ == self@.minis,
            r@.len() == 16 * self@.width * self@.height,
    {
        proof {
            use_type_invariant(self);
        }
        self.mini_tiles.as_slice()
    }
}

/// Summarises one tile: its flags and its 16 mini-tiles (all clear, and the
/// tile unwalkable, when the group or megatile is missing).
fn compute_tile(tile_id: u16, tileset_data: &TilesetData) -> (r: (Tile, [MiniTile; 16]))
    ensures
        r.0 == built_tile(ts_model(tileset_data), tile_id),
        forall|j: int| 0 <= j < 16 ==> (#[trigger] r.1@[j]).flags == mini_flags_spec(
            ts_model(tileset_data),
            tile_id,
            j,
        ),
{
    let empty_minis: [MiniTile; 16] = [MiniTile { flags: 0 }; 16];
    let megatile_idx = match tileset_data.megatile_index(tile_id) {
        Some(m) => m,
        None => {
            return (Tile { flags: TileFlags::UNWALKABLE, raw_tile_id: tile_id }, empty_minis);
        },
    };
    let mini_flags = match tileset_data.mini_tile_flags(megatile_idx) {
        Ok(f) => f,
        Err(_) => {
            return (Tile { flags: TileFlags::UNWALKABLE, raw_tile_id: tile_id }, empty_minis);
        },
    };
    let ghost mf = mini_flags@;
    let mut walkable_count: u8 = 0;
    let mut middle_count: u8 = 0;
    let mut high_count: u8 = 0;
    let mut very_high_count: u8 = 0;
    let mut mini_tiles: [MiniTile; 16] = [MiniTile { flags: 0 }; 16];
    let mut i: usize = 0;
    while i < 16
        invariant
            i <= 16,
            mf == mini_flags@,
            mf.len() == 16,
            walkable_count == count_flag(mf, MiniTile::WALKABLE, i as int),
            middle_count == count_flag(mf, MiniTile::MIDDLE, i as int),
            high_count == count_flag(mf, MiniTile::HIGH, i as int),
            very_high_count == count_flag(mf, MiniTile::VERY_HIGH, i as int),
            walkable_count <= i && middle_count <= i && high_count <= i && very_high_count <= i,
            forall|j: int| 0 <= j < i ==> (#[trigger] mini_tiles@[j]).flags == mf[j],
        decreases 16 - i,
    {
        let f = mini_flags[i];
        mini_tiles[i] = MiniTile { flags: f };
        if f & MiniTile::WALKABLE != 0 {
            walkable_count = walkable_count + 1;
        }
        if f & MiniTile::MIDDLE != 0 {
            middle_count = middle_count + 1;
        }
        if f & MiniTile::HIGH != 0 {
            high_count = high_count + 1;
        }
        if f & MiniTile::VERY_HIGH != 0 {
            very_high_count = very_high_count + 1;
        }
        i = i + 1;
    }
    let a: u16 = if walkable_count > 12 { TileFlags::WALKABLE } else { TileFlags::UNWALKABLE };
    let b: u16 = if walkable_count > 0 && walkable_count != 16 {
        TileFlags::PARTIALLY_WALKABLE
    } else {
        0
    };
    let c: u16 = if high_count < 12 && (middle_count + high_count) >= 12 {
        TileFlags::MIDDLE
    } else {
        0
    };
    let d: u16 = if high_count >= 12 { TileFlags::HIGH } else { 0 };
    let e: u16 = if very_high_count > 0 { TileFlags::VERY_HIGH } else { 0 };
    let cv5 = tileset_data.cv5_flags(tile_id);
    let merged = (cv5 & CV5_STRIP_MASK) & TileFlags::ALL;
    assert((cv5 & 0xD8FAu16) & 0x2FD5u16 == cv5 & 0x08D0u16) by (bit_vector);
    let flags = (a | b | c | d | e) | merged;
    (Tile { flags, raw_tile_id: tile_id }, mini_tiles)
}

/// Tile-flag bits recomputed from mini-tiles, stripped from the CV5 flags before merging.
pub const CV5_STRIP_MASK: u16 = 0xD8FA;

pub(crate) proof fn lemma_mul_step(a: int, b: int)
    ensures
        (a + 1) * b == a * b + b,
{
    assert((a + 1) * b == a * b + b) by (nonlinear_arith);
}

pub(crate) proof fn lemma_row_col(i: int, w: int, row: int, col: int)
    requires
        w > 0,
        0 <= col < w,
        i == row * w + col,
    ensures
        i / w == row,
        i % w == col,
{
    vstd::arithmetic::div_mod::lemma_fundamental_div_mod_converse(i, w, row, col);
}

/// Forces the border tiles (see `on_border`) unwalkable and unbuildable.
fn apply_border_flags(tiles: &mut Vec<Tile>, width: usize, height: usize)
    requires
        old(tiles)@.len() == width * height,
    ensures
        final(tiles)@.len() == old(tiles)@.len(),
        forall|i: int|
            0 <= i < width * height ==> #[trigger] final(tiles)@[i] == bordered(
                old(tiles)@[i],
                i,
                width as int,
                height as int,
            ),
{
    let ghost orig = tiles@;
    let n = tiles.len();
    if height < 2 || width < 5 {
        return;
    }
    let strip: u16 = TileFlags::WALKABLE | TileFlags::HAS_CREEP | TileFlags::PARTIALLY_WALKABLE;
    assert(strip == 0x2041u16) by (bit_vector)
        requires
            strip == 0x0001u16 | 0x0040u16 | 0x2000u16,
    ;
    assert((height - 1) * width + width == width * height) by (nonlinear_arith)
        requires
            height >= 2,
    ;
    // Row above the bottom: leftmost five, then rightmost five.
    let row = height - 2;
    let mut col: usize = 0;
    while col < width
        invariant
            width >= 5,
            height >= 2,
            row == height - 2,
            (height - 1) * width + width == width * height,
            strip == 0x2041u16,
            n == width * height,
            tiles@.len() == orig.len(),
            orig.len() == width * height,
            col <= width,
            forall|i: int|
                0 <= i < width * height ==> #[trigger] tiles@[i] == (if i / (width as int) == row && i % (width as int) < col
                    && on_border(i, width as int, height as int) {
                    bordered(orig[i], i, width as int, height as int)
                } else {
                    orig[i]
                }),
        decreases width - col,
    {
        assert(row * width + col < width * height) by (nonlinear_arith)
            requires
                row == height - 2,
                col < width,
                (height - 1) * width + width == width * height,
        ;
        let idx = row * width + col;
        proof {
            lemma_row_col(idx as int, width as int, row as int, col as int);
        }
        let ghost prev = tiles@;
        if col < 5 || col >= width - 5 {
            let t = tiles[idx];
            tiles.set(idx, Tile { flags: (t.flags & !strip) | TileFlags::UNBUILDABLE, raw_tile_id: t.raw_tile_id });
        }
        proof {
            assert forall|i: int| 0 <= i < width * height implies #[trigger] tiles@[i] == (if i / (width as int) == row
                && i % (width as int) < col + 1 && on_border(i, width as int, height as int) {
                bordered(orig[i], i, width as int, height as int)
            } else {
                orig[i]
            }) by {
                assert(prev[i] == (if i / (width as int) == row && i % (width as int) < col && on_border(
                    i,
                    width as int,
                    height as int,
                ) {
                    bordered(orig[i], i, width as int, height as int)
                } else {
                    orig[i]
                }));
                if i != idx {
                    if i / (width as int) == row && i % (width as int) == col {
                        vstd::arithmetic::div_mod::lemma_fundamental_div_mod(i, width as int);
                        assert(width * (i / (width as int)) == row * width) by (nonlinear_arith)
                            requires
                                i / (width as int) == row,
                        ;
                        assert(false);
                    }
                } else {
                    assert(i / (width as int) == row);
                    assert(i % (width as int) == col);
                    if col < 5 || col >= width - 5 {
                        assert(on_border(i, width as int, height as int));
                        assert(tiles@[i].flags == (orig[i].flags & !0x2041u16) | 0x0080u16);
                        assert(tiles@[i] == bordered(orig[i], i, width as int, height as int));
                    } else {
                        assert(!on_border(i, width as int, height as int));
                    }
                }
            }
        }
        col = col + 1;
    }
    // Bottom row: every tile.
    let row = height - 1;
    let mut col: usize = 0;
    while col < width
        invariant
            width >= 5,
            height >= 2,
            row == height - 1,
            (height - 1) * width + width == width * height,
            strip == 0x2041u16,
            n == width * height,
            tiles@.len() == orig.len(),
            orig.len() == width * height,
            col <= width,
            forall|i: int|
                0 <= i < width * height ==> #[trigger] tiles@[i] == (if (i / (width as int) == height - 2 || (i / (width as int) == row && i % (width as int) < col))
                    && on_border(i, width as int, height as int) {
                    bordered(orig[i], i, width as int, height as int)
                } else {
                    orig[i]
                }),
        decreases width - col,
    {
        assert(row * width + col < width * height) by (nonlinear_arith)
            requires
                row == height - 1,
                col < width,
                (height - 1) * width + width == width * height,
        ;
        let idx = row * width + col;
        proof {
            lemma_row_col(idx as int, width as int, row as int, col as int);
        }
        let t = tiles[idx];
        tiles.set(idx, Tile { flags: (t.flags & !strip) | TileFlags::UNBUILDABLE, raw_tile_id: t.raw_tile_id });
        proof {
            assert forall|i: int| 0 <= i < width * height implies #[trigger] tiles@[i] == (if (i / (width as int)
                == height - 2 || (i / (width as int) == row && i % (width as int) < col + 1)) && on_border(
                i,
                width as int,
                height as int,
            ) {
                bordered(orig[i], i, width as int, height as int)
            } else {
                orig[i]
            }) by {
                if i != idx {
                    if i / (width as int) == row && i % (width as int) == col {
                        vstd::arithmetic::div_mod::lemma_fundamental_div_mod(i, width as int);
                        assert(width * (i / (width as int)) == row * width) by (nonlinear_arith)
                            requires
                                i / (width as int) == row,
                        ;
                        assert(false);
                    }
                }
            }
        }
        col = col + 1;
    }
    proof {
        assert forall|i: int| 0 <= i < width * height implies #[trigger] tiles@[i] == bordered(
            orig[i],
            i,
            width as int,
            height as int,
        ) by {
            vstd::arithmetic::div_mod::lemma_div_pos_is_pos(i, width as int);
            vstd::arithmetic::div_mod::lemma_mod_bound(i, width as int);
            assert(i / (width as int) < height) by {
                if i / (width as int) >= height {
                    vstd::arithmetic::div_mod::lemma_fundamental_div_mod(i, width as int);
                    assert((i / (width as int)) * width >= height * width) by (nonlinear_arith)
                        requires
                            i / (width as int) >= height,
                            width >= 0,
                    ;
                    assert(width * height == height * width) by (nonlinear_arith);
                }
            }
        }
    }
}

} // verus!
