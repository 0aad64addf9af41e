//! CHK scenario files: a sequence of tag-length-value sections.
use vstd::prelude::*;
use crate::error::{EngineError, Result};
use crate::text::{chars_to_string, decimal_chars, push_decimal, push_str, utf8_str};
use vstd::utf8::{decode_utf8, valid_utf8};

verus! {

/// Little-endian `u16` at `p`.
pub open spec fn le_u16(d: Seq<u8>, p: int) -> int {
    d[p] + d[p + 1] * 256
}

/// Little-endian `u32` at `p`.
pub open spec fn le_u32(d: Seq<u8>, p: int) -> int {
    d[p] + d[p + 1] * 256 + d[p + 2] * 65536 + d[p + 3] * 16777216
}

/// Reads a little-endian `u16` at `p`.
pub fn read_le_u16(d: &[u8], p: usize) -> (r: u16)
    requires
        p + 2 <= d@.len(),
    ensures
        r == le_u16(d@, p as int),
{
    d[p] as u16 + d[p + 1] as u16 * 256
}

/// Reads a little-endian `u32` at `p`.
pub fn read_le_u32(d: &[u8], p: usize) -> (r: u32)
    requires
        p + 4 <= d@.len(),
    ensures
        r == le_u32(d@, p as int),
{
    d[p] as u32 + d[p + 1] as u32 * 256 + d[p + 2] as u32 * 65536 + d[p + 3] as u32 * 16777216
}

/// One section of a CHK file: a 4-byte tag and the bytes it covers.
#[derive(Debug)]
pub struct ChkSection<'a> {
    pub tag: [u8; 4],
    pub data: &'a [u8],
}

/// The abstract form of a section: its tag bytes and data bytes.
pub open spec fn section_view(s: ChkSection) -> (Seq<u8>, Seq<u8>) {
    (s.tag@, s.data@)
}

impl<'a> ChkSection<'a> {
    /// The tag as text; `"????"` when the tag bytes are not valid UTF-8.
    pub fn tag_str(&self) -> (r: &str)
        ensures
            valid_utf8(self.tag@) ==> r@ == decode_utf8(self.tag@),
            !valid_utf8(self.tag@) ==> r@ == "????"@,
    {
        match utf8_str(self.tag.as_slice()) {
            Some(s) => s,
            None => "????",
        }
    }
}

/// The sections found from byte `pos` on: each header is 8 bytes (tag,
/// little-endian length); a section whose length runs past the end keeps the
/// bytes that remain and ends the scan.
pub open spec fn sections_from(d: Seq<u8>, pos: nat) -> Seq<(Seq<u8>, Seq<u8>)>
    decreases d.len() - pos,
{
    if pos + 8 > d.len() {
        Seq::empty()
    } else {
        let tag = d.subrange(pos as int, pos + 4int);
        let len = le_u32(d, pos + 4int);
        let start = pos + 8;
        if start + len > d.len() {
            seq![(tag, d.subrange(start as int, d.len() as int))]
        } else {
            seq![(tag, d.subrange(start as int, start + len))] + sections_from(
                d,
                (start + len) as nat,
            )
        }
    }
}

/// Parses every tag-length-value section of raw CHK bytes, in file order.
/// Never fails; a truncated final section keeps what is present.
pub fn parse_sections(data: &[u8]) -> (r: Result<Vec<ChkSection<'_>>>)
    ensures
        r matches Ok(v) && v@.map_values(|s: ChkSection| section_view(s)) == sections_from(
            data@,
            0,
        ),
{
    let mut sections: Vec<ChkSection> = Vec::new();
    let mut pos: usize = 0;
    while pos <= data.len() && data.len() - pos >= 8
        invariant
            pos <= data@.len(),
            sections@.map_values(|s: ChkSection| section_view(s)) + sections_from(data@, pos as nat)
                == sections_from(data@, 0),
        decreases data@.len() - pos,
    {
        let tag: [u8; 4] = [data[pos], data[pos + 1], data[pos + 2], data[pos + 3]];
        let len = read_le_u32(data, pos + 4) as usize;
        let start = pos + 8;
        let ghost before = sections@.map_values(|s: ChkSection| section_view(s));
        assert(tag@ == data@.subrange(pos as int, pos + 4));
        if len > data.len() - start {
            let sec = ChkSection { tag, data: &data[start..data.len()] };
            sections.push(sec);
            assert(sections@.map_values(|s: ChkSection| section_view(s)) == before.push(
                section_view(sec),
            ));
            assert(sections_from(data@, pos as nat) == seq![section_view(sec)]);
            assert(sections_from(data@, 0) == sections@.map_values(|s: ChkSection| section_view(s)));
            return Ok(sections);
        }
        let sec = ChkSection { tag, data: &data[start..start + len] };
        sections.push(sec);
        assert(sections@.map_values(|s: ChkSection| section_view(s)) == before.push(
            section_view(sec),
        ));
        pos = start + len;
    }
    assert(sections_from(data@, pos as nat) == Seq::<(Seq<u8>, Seq<u8>)>::empty());
    assert(sections@.map_values(|s: ChkSection| section_view(s)) + Seq::<(Seq<u8>, Seq<u8>)>::empty()
        == sections@.map_values(|s: ChkSection| section_view(s)));
    Ok(sections)
}

/// Tag bytes of the dimensions section, `"DIM "`.
pub open spec fn dim_tag() -> Seq<u8> {
    seq![68u8, 73u8, 77u8, 32u8]
}

/// Tag bytes of the tileset section, `"ERA "`.
pub open spec fn era_tag() -> Seq<u8> {
    seq![69u8, 82u8, 65u8, 32u8]
}

/// Tag bytes of the tile-matrix section, `"MTXM"`.
pub open spec fn mtxm_tag() -> Seq<u8> {
    seq![77u8, 84u8, 88u8, 77u8]
}

/// The data of the last DIM, last ERA and last MTXM section, each where
/// there is one.
pub open spec fn last_sections(secs: Seq<(Seq<u8>, Seq<u8>)>) -> (
    Option<Seq<u8>>,
    Option<Seq<u8>>,
    Option<Seq<u8>>,
)
    decreases secs.len(),
{
    if secs.len() == 0 {
        (None, None, None)
    } else {
        let prev = last_sections(secs.drop_last());
        let s = secs.last();
        if s.0 == dim_tag() {
            (Some(s.1), prev.1, prev.2)
        } else if s.0 == era_tag() {
            (prev.0, Some(s.1), prev.2)
        } else if s.0 == mtxm_tag() {
            (prev.0, prev.1, Some(s.1))
        } else {
            prev
        }
    }
}

/// The terrain read from the last DIM, ERA and MTXM sections: the size of a
/// last DIM of at least 4 bytes, the index of a last ERA of at least 2 bytes,
/// the last MTXM data, and the malformed section to report (its tag and
/// length): a last DIM that is too short, else, after a good DIM, a last ERA
/// that is too short.
pub open spec fn scan_terrain(secs: Seq<(Seq<u8>, Seq<u8>)>) -> (
    Option<(int, int)>,
    Option<int>,
    Option<Seq<u8>>,
    Option<(Seq<u8>, int)>,
) {
    let last = last_sections(secs);
    let dim = match last.0 {
        Some(d) => if d.len() >= 4 { Some((le_u16(d, 0), le_u16(d, 2))) } else { None },
        None => None,
    };
    let era = match last.1 {
        Some(e) => if e.len() >= 2 { Some(le_u16(e, 0)) } else { None },
        None => None,
    };
    let bad = match last.0 {
        Some(d) => if d.len() < 4 {
            Some((dim_tag(), d.len() as int))
        } else {
            match last.1 {
                Some(e) => if e.len() < 2 { Some((era_tag(), e.len() as int)) } else { None },
                None => None,
            }
        },
        None => None,
    };
    (dim, era, last.2, bad)
}

/// Tile id `i` of MTXM data: a little-endian `u16`, the lone low byte when only
/// one byte of it is present, and zero past the end of the data.
pub open spec fn mtxm_tile(d: Seq<u8>, i: int) -> int {
    if 2 * i + 2 <= d.len() {
        le_u16(d, 2 * i)
    } else if 2 * i + 1 == d.len() {
        d[2 * i] as int
    } else {
        0
    }
}

/// Terrain-relevant data extracted from a CHK file.
#[derive(Debug)]
pub struct ChkTerrain {
    pub width: u16,
    pub height: u16,
    pub tileset_index: u16,
    pub tile_ids: Vec<u16>,
}

/// Reason text for a section shorter than `expected` bytes.
pub open spec fn short_reason(expected: nat, actual: nat) -> Seq<char> {
    "expected "@ + decimal_chars(expected) + " bytes, got "@ + decimal_chars(actual)
}

/// Characters of a 4-byte ASCII tag.
pub open spec fn tag_chars(t: Seq<u8>) -> Seq<char> {
    t.map_values(|b: u8| b as char)
}

fn tag_is(tag: &[u8; 4], a: u8, b: u8, c: u8, d: u8) -> (r: bool)
    ensures
        r == (tag@ == seq![a, b, c, d]),
{
    let r = tag[0] == a && tag[1] == b && tag[2] == c && tag[3] == d;
    proof {
        if r {
            assert(tag@ =~= seq![a, b, c, d]);
        } else {
            assert(tag@ != seq![a, b, c, d] || tag@[0] != a || tag@[1] != b || tag@[2] != c || tag@[3] != d);
        }
    }
    r
}

fn string_of(tag: &[u8; 4]) -> (r: String)
    ensures
        r@ == tag_chars(tag@),
{
    let v: Vec<char> = vec![tag[0] as char, tag[1] as char, tag[2] as char, tag[3] as char];
    assert(v@ =~= tag_chars(tag@));
    chars_to_string(&v)
}

fn invalid_section(tag: &[u8; 4], expected: u64, actual: usize) -> (e: EngineError)
    ensures
        e matches EngineError::InvalidSection { tag: t, reason } && t@ == tag_chars(tag@)
            && reason@ == short_reason(expected as nat, actual as nat),
{
    let mut v: Vec<char> = Vec::new();
    push_str("expected ", &mut v);
    push_decimal(expected, &mut v);
    push_str(" bytes, got ", &mut v);
    push_decimal(actual as u64, &mut v);
    EngineError::InvalidSection { tag: string_of(tag), reason: chars_to_string(&v) }
}

/// Whether the scan found DIM, ERA and MTXM and no malformed section.
pub open spec fn terrain_complete(
    sc: (Option<(int, int)>, Option<int>, Option<Seq<u8>>, Option<(Seq<u8>, int)>),
) -> bool {
    sc.3 is None && sc.0 is Some && sc.1 is Some && sc.2 is Some
}

/// The error an incomplete scan reports: the malformed section (with the
/// length it needed and had), else the first of DIM, ERA, MTXM that is missing.
pub open spec fn terrain_error(
    sc: (Option<(int, int)>, Option<int>, Option<Seq<u8>>, Option<(Seq<u8>, int)>),
    e: EngineError,
) -> bool {
    match sc.3 {
        Some((t, n)) => e matches EngineError::InvalidSection { tag, reason } && tag@ == tag_chars(t)
            && reason@ == short_reason(if t == dim_tag() { 4nat } else { 2nat }, n as nat),
        None => e matches EngineError::MissingSection { tag } && tag@ == (if sc.0 is None {
            "DIM "@
        } else if sc.1 is None {
            "ERA "@
        } else {
            "MTXM"@
        }),
    }
}

/// The tile ids of a `w`x`h` map read from MTXM data.
pub open spec fn mtxm_tiles(d: Seq<u8>, w: int, h: int) -> Seq<u16> {
    Seq::new((w * h) as nat, |i: int| mtxm_tile(d, i) as u16)
}

/// Whether `t` is the terrain of a complete scan.
pub open spec fn terrain_matches(
    t: ChkTerrain,
    sc: (Option<(int, int)>, Option<int>, Option<Seq<u8>>, Option<(Seq<u8>, int)>),
) -> bool {
    &&& t.width == sc.0.unwrap().0
    &&& t.height == sc.0.unwrap().1
    &&& t.tileset_index == sc.1.unwrap()
    &&& t.tile_ids@ == mtxm_tiles(sc.2.unwrap(), t.width as int, t.height as int)
}

/// Reads the DIM section: `(width, height)`.
pub fn parse_dim(data: &[u8]) -> (r: Result<(u16, u16)>)
    ensures
        data@.len() >= 4 ==> (r matches Ok((w, h)) && w == le_u16(data@, 0) && h == le_u16(
            data@,
            2,
        )),
        data@.len() < 4 ==> (r matches Err(EngineError::InvalidSection { tag, reason }) && tag@
            == "DIM "@ && reason@ == short_reason(4, data@.len())),
{
    if data.len() < 4 {
        let e = invalid_section(&[68u8, 73u8, 77u8, 32u8], 4, data.len());
        proof {
            reveal_strlit("DIM ");
            let t: [u8; 4] = [68u8, 73u8, 77u8, 32u8];
            assert(tag_chars(t@) =~= "DIM "@);
        }
        return Err(e);
    }
    Ok((read_le_u16(data, 0), read_le_u16(data, 2)))
}

spec fn opt_bytes(o: Option<&[u8]>) -> Option<Seq<u8>> {
    match o {
        Some(a) => Some(a@),
        None => None,
    }
}

/// Reads the ERA section: the tileset index.
pub fn parse_era(data: &[u8]) -> (r: Result<u16>)
    ensures
        data@.len() >= 2 ==> (r matches Ok(v) && v == le_u16(data@, 0)),
        data@.len() < 2 ==> (r matches Err(EngineError::InvalidSection { tag, reason }) && tag@
            == "ERA "@ && reason@ == short_reason(2, data@.len())),
{
    if data.len() < 2 {
        let e = invalid_section(&[69u8, 82u8, 65u8, 32u8], 2, data.len());
        proof {
            reveal_strlit("ERA ");
            let t: [u8; 4] = [69u8, 82u8, 65u8, 32u8];
            assert(tag_chars(t@) =~= "ERA "@);
        }
        return Err(e);
    }
    Ok(read_le_u16(data, 0))
}

/// Reads `expected_count` MTXM tile ids, zero-filling past the data and
/// keeping only the low byte of a trailing odd byte.
pub fn parse_mtxm(data: &[u8], expected_count: usize) -> (r: Vec<u16>)
    ensures
        r@.len() == expected_count,
        forall|i: int| 0 <= i < expected_count ==> #[trigger] r@[i] == mtxm_tile(data@, i),
{
    let mut tile_ids: Vec<u16> = Vec::new();
    let mut i: usize = 0;
    while i < expected_count
        invariant
            i <= expected_count,
            tile_ids@.len() == i,
            forall|j: int| 0 <= j < i ==> #[trigger] tile_ids@[j] == mtxm_tile(data@, j),
        decreases expected_count - i,
    {
        let t: u16 = if i < data.len() / 2 {
            read_le_u16(data, 2 * i)
        } else if i == data.len() / 2 && data.len() % 2 == 1 {
            data[2 * i] as u16
        } else {
            0
        };
        tile_ids.push(t);
        i = i + 1;
    }
    tile_ids
}

/// Extracts terrain from parsed sections, using the last DIM, ERA and MTXM
/// section. A missing DIM, ERA or MTXM is reported, checked in that order, as
/// is a last DIM shorter than 4 bytes or last ERA shorter than 2.
pub fn extract_terrain(sections: &[ChkSection<'_>]) -> (r: Result<ChkTerrain>)
    ensures
        ({
            let sc = scan_terrain(sections@.map_values(|s: ChkSection| section_view(s)));
            &&& !terrain_complete(sc) ==> (r matches Err(e) && terrain_error(sc, e))
            &&& terrain_complete(sc) ==> (r matches Ok(t) && terrain_matches(t, sc))
        }),
{
    let ghost secs = sections@.map_values(|s: ChkSection| section_view(s));
    let mut dim: Option<&[u8]> = None;
    let mut era: Option<&[u8]> = None;
    let mut mtxm: Option<&[u8]> = None;
    let mut i: usize = 0;
    while i < sections.len()
        invariant
            i <= sections@.len(),
            secs == sections@.map_values(|s: ChkSection| section_view(s)),
            last_sections(secs.take(i as int)) == (opt_bytes(dim), opt_bytes(era), opt_bytes(mtxm)),
        decreases sections@.len() - i,
    {
        let section = &sections[i];
        proof {
            assert(secs.take(i + 1).drop_last() =~= secs.take(i as int));
            assert(secs.take(i + 1).last() == section_view(*section));
        }
        if tag_is(&section.tag, 68, 73, 77, 32) {
            dim = Some(section.data);
        } else if tag_is(&section.tag, 69, 82, 65, 32) {
            era = Some(section.data);
        } else if tag_is(&section.tag, 77, 84, 88, 77) {
            mtxm = Some(section.data);
        }
        i = i + 1;
    }
    assert(secs.take(i as int) =~= secs);
    proof {
        reveal_strlit("DIM ");
        reveal_strlit("ERA ");
        assert(tag_chars(dim_tag()) =~= "DIM "@);
        assert(tag_chars(era_tag()) =~= "ERA "@);
    }
    let (width, height) = match dim {
        Some(d) => match parse_dim(d) {
            Ok(p) => p,
            Err(e) => {
                return Err(e);
            },
        },
        None => {
            return Err(EngineError::MissingSection { tag: String::from_str("DIM ") });
        },
    };
    let tileset_index = match era {
        Some(d) => match parse_era(d) {
            Ok(v) => v,
            Err(e) => {
                return Err(e);
            },
        },
        None => {
            return Err(EngineError::MissingSection { tag: String::from_str("ERA ") });
        },
    };
    let mtxm_data = match mtxm {
        Some(m) => m,
        None => {
            return Err(EngineError::MissingSection { tag: String::from_str("MTXM") });
        },
    };
    assert(width as int * height as int <= 0xFFFF * 0xFFFF) by (nonlinear_arith)
        requires
            width <= 0xFFFF,
            height <= 0xFFFF,
    ;
    let expected_count = width as usize * height as usize;
    let tile_ids = parse_mtxm(mtxm_data, expected_count);
    assert(tile_ids@ =~= mtxm_tiles(mtxm_data@, width as int, height as int));
    Ok(ChkTerrain { width, height, tileset_index, tile_ids })
}

} // verus!
