//! Preplaced units and start locations from the CHK `UNIT` section.
use vstd::prelude::*;
use crate::chk::{le_u16, le_u32, read_le_u16, read_le_u32, section_view, ChkSection};
use crate::error::Result;

verus! {

/// Size in bytes of one `UNIT` entry.
pub const UNIT_ENTRY_SIZE: usize = 36;

/// Unit type id of a start location marker.
pub const START_LOCATION: u16 = 214;

/// A unit placed on the map by the scenario.
#[derive(Debug, Clone, Copy, PartialEq, Eq, Structural)]
pub struct ChkUnit {
    pub instance_id: u32,
    pub x: u16,
    pub y: u16,
    pub unit_type: u16,
    pub owner: u8,
    pub hp_percent: u8,
    pub shield_percent: u8,
    pub energy_percent: u8,
    pub resources: u32,
}

/// Tag bytes of the unit section, `"UNIT"`.
pub open spec fn unit_tag() -> Seq<u8> {
    seq![85u8, 78u8, 73u8, 84u8]
}

/// Data of the last `UNIT` section, if any.
pub open spec fn last_unit_data(secs: Seq<(Seq<u8>, Seq<u8>)>) -> Option<Seq<u8>>
    decreases secs.len(),
{
    if secs.len() == 0 {
        None
    } else if secs.last().0 == unit_tag() {
        Some(secs.last().1)
    } else {
        last_unit_data(secs.drop_last())
    }
}

/// The entry whose first byte is at `b`.
pub open spec fn unit_entry(d: Seq<u8>, b: int) -> ChkUnit {
    ChkUnit {
        instance_id: le_u32(d, b) as u32,
        x: le_u16(d, b + 4) as u16,
        y: le_u16(d, b + 6) as u16,
        unit_type: le_u16(d, b + 8) as u16,
        owner: d[b + 16],
        hp_percent: d[b + 17],
        shield_percent: d[b + 18],
        energy_percent: d[b + 19],
        resources: le_u32(d, b + 20) as u32,
    }
}

/// Valid entries among the first `k` whole entries, in order; an entry is
/// valid when its unit type is below 228 (so `0xFFFF` is skipped).
pub open spec fn units_upto(d: Seq<u8>, k: nat) -> Seq<ChkUnit>
    decreases k,
{
    if k == 0 {
        Seq::empty()
    } else {
        let prev = units_upto(d, (k - 1) as nat);
        let e = unit_entry(d, (k - 1) * 36);
        if e.unit_type >= 228 {
            prev
        } else {
            prev.push(e)
        }
    }
}

/// `(owner, x, y)` of the start-location entries among the first `k` entries.
pub open spec fn starts_upto(d: Seq<u8>, k: nat) -> Seq<(u8, u16, u16)>
    decreases k,
{
    if k == 0 {
        Seq::empty()
    } else {
        let prev = starts_upto(d, (k - 1) as nat);
        let e = unit_entry(d, (k - 1) * 36);
        if e.unit_type == 214 {
            prev.push((e.owner, e.x, e.y))
        } else {
            prev
        }
    }
}

fn read_entry(d: &[u8], base: usize) -> (r: ChkUnit)
    requires
        base + 36 <= d@.len(),
    ensures
        r == unit_entry(d@, base as int),
{
    let _n = d.len();
    ChkUnit {
        instance_id: read_le_u32(d, base),
        x: read_le_u16(d, base + 4),
        y: read_le_u16(d, base + 6),
        unit_type: read_le_u16(d, base + 8),
        owner: d[base + 16],
        hp_percent: d[base + 17],
        shield_percent: d[base + 18],
        energy_percent: d[base + 19],
        resources: read_le_u32(d, base + 20),
    }
}

fn last_unit_section<'a>(sections: &[ChkSection<'a>]) -> (r: Option<&'a [u8]>)
    ensures
        match last_unit_data(sections@.map_values(|s: ChkSection| section_view(s))) {
            Some(d) => r matches Some(x) && x@ == d,
            None => r is None,
        },
{
    let ghost secs = sections@.map_values(|s: ChkSection| section_view(s));
    let mut found: Option<&'a [u8]> = None;
    let mut i: usize = 0;
    while i < sections.len()
        invariant
            i <= sections@.len(),
            secs == sections@.map_values(|s: ChkSection| section_view(s)),
            match last_unit_data(secs.take(i as int)) {
                Some(d) => found matches Some(x) && x@ == d,
                None => found is None,
            },
        decreases sections@.len() - i,
    {
        proof {
            assert(secs.take(i + 1).drop_last() =~= secs.take(i as int));
        }
        let t = &sections[i].tag;
        let is_unit = t[0] == 85 && t[1] == 78 && t[2] == 73 && t[3] == 84;
        proof {
            if is_unit {
                assert(sections@[i as int].tag@ =~= unit_tag());
            } else {
                assert(sections@[i as int].tag@ != unit_tag()) by {
                    if sections@[i as int].tag@ == unit_tag() {
                        assert(sections@[i as int].tag@[0] == 85u8);
                        assert(sections@[i as int].tag@[1] == 78u8);
                        assert(sections@[i as int].tag@[2] == 73u8);
                        assert(sections@[i as int].tag@[3] == 84u8);
                    }
                }
            }
        }
        if is_unit {
            found = Some(sections[i].data);
        }
        i = i + 1;
    }
    assert(secs.take(i as int) =~= secs);
    found
}

/// Preplaced units of the last `UNIT` section (none without one): every whole
/// 36-byte entry whose unit type is below 228, in file order. Never fails.
pub fn parse_chk_units(sections: &[ChkSection<'_>]) -> (r: Result<Vec<ChkUnit>>)
    ensures
        r matches Ok(v) && match last_unit_data(sections@.map_values(|s: ChkSection| section_view(s))) {
            Some(d) => v@ == units_upto(d, d.len() / 36),
            None => v@.len() == 0,
        },
{
    let data = match last_unit_section(sections) {
        Some(d) => d,
        None => {
            return Ok(Vec::new());
        },
    };
    let count = data.len() / UNIT_ENTRY_SIZE;
    let mut units: Vec<ChkUnit> = Vec::new();
    let mut i: usize = 0;
    while i < count
        invariant
            i <= count,
            count == data@.len() / 36,
            units@ == units_upto(data@, i as nat),
        decreases count - i,
    {
        let dlen = data.len();
        assert(i * 36 + 36 <= dlen) by (nonlinear_arith)
            requires
                i < count,
                count == dlen / 36,
        ;
        let base = i * UNIT_ENTRY_SIZE;
        let e = read_entry(data, base);
        if e.unit_type != 0xFFFF && e.unit_type < 228 {
            units.push(e);
        }
        i = i + 1;
    }
    Ok(units)
}

/// `(owner, x, y)` of every start-location entry (unit type 214) of the last
/// `UNIT` section, in file order.
pub fn parse_start_locations(sections: &[ChkSection<'_>]) -> (r: Vec<(u8, u16, u16)>)
    ensures
        match last_unit_data(sections@.map_values(|s: ChkSection| section_view(s))) {
            Some(d) => r@ == starts_upto(d, d.len() / 36),
            None => r@.len() == 0,
        },
{
    let data = match last_unit_section(sections) {
        Some(d) => d,
        None => {
            return Vec::new();
        },
    };
    let count = data.len() / UNIT_ENTRY_SIZE;
    let mut locations: Vec<(u8, u16, u16)> = Vec::new();
    let mut i: usize = 0;
    while i < count
        invariant
            i <= count,
            count == data@.len() / 36,
            locations@ == starts_upto(data@, i as nat),
        decreases count - i,
    {
        let dlen = data.len();
        assert(i * 36 + 36 <= dlen) by (nonlinear_arith)
            requires
                i < count,
                count == dlen / 36,
        ;
        let base = i * UNIT_ENTRY_SIZE;
        let e = read_entry(data, base);
        if e.unit_type == START_LOCATION {
            locations.push((e.owner, e.x, e.y));
        }
        i = i + 1;
    }
    locations
}

/// The start locations among placed units: each unit of type 214 as
/// `(owner, x, y)`, in order.
pub open spec fn start_positions(us: Seq<ChkUnit>) -> Seq<(u8, u16, u16)>
    decreases us.len(),
{
    if us.len() == 0 {
        Seq::empty()
    } else {
        let prev = start_positions(us.drop_last());
        let e = us.last();
        if e.unit_type == 214 {
            prev.push((e.owner, e.x, e.y))
        } else {
            prev
        }
    }
}

proof fn lemma_starts_upto(d: Seq<u8>, k: nat)
    ensures
        starts_upto(d, k) == start_positions(units_upto(d, k)),
    decreases k,
{
    if k > 0 {
        lemma_starts_upto(d, (k - 1) as nat);
        let e = unit_entry(d, (k - 1) * 36);
        if e.unit_type < 228 {
            assert(units_upto(d, k).drop_last() =~= units_upto(d, (k - 1) as nat));
        }
    }
}

/// The start locations are exactly the placed units of type 214, as
/// `(owner, x, y)` in record order: what `parse_start_locations` returns is
/// what `parse_chk_units` returns, kept to type 214 and mapped.
pub proof fn lemma_start_locations_are_start_units(secs: Seq<(Seq<u8>, Seq<u8>)>)
    ensures
        last_unit_data(secs) matches Some(d) ==> starts_upto(d, d.len() / 36) == start_positions(
            units_upto(d, d.len() / 36),
        ),
{
    if let Some(d) = last_unit_data(secs) {
        lemma_starts_upto(d, d.len() / 36);
    }
}

} // verus!
