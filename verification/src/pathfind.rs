//! Route planning over the region graph: the decisions that come before and
//! after the cost search, which compares real-valued distances.
use vstd::prelude::*;
use crate::regions::{RegionMap, Region, tile_at_px};

verus! {

/// What to do for a route from a source to a destination pixel.
#[derive(Debug, Clone, Copy, PartialEq, Eq, Structural)]
pub enum PathPlan {
    /// An endpoint is off the map or unwalkable, or the two lie in different groups.
    NoPath,
    /// Both endpoints lie in one region: go straight to the destination.
    Direct,
    /// The endpoints lie in different regions of one walkable group: search the region graph.
    Search { src_region: usize, dst_region: usize },
}

impl RegionMap {
    /// The region under pixel `(px, py)`, if inside the map.
    pub open spec fn region_at_spec(&self, px: int, py: int) -> Option<int> {
        match tile_at_px(self.grid_width(), self.grid_height(), px, py) {
            Some(t) => Some(self.labels()[t] as int),
            None => None,
        }
    }
}

/// The plan for a route between two pixel positions.
pub open spec fn plan_spec(rm: &RegionMap, sx: int, sy: int, dx: int, dy: int) -> PathPlan {
    match (rm.region_at_spec(sx, sy), rm.region_at_spec(dx, dy)) {
        (Some(s), Some(d)) => {
            let rs = rm.region_seq()[s];
            let rd = rm.region_seq()[d];
            if !rs.walkable || !rd.walkable {
                PathPlan::NoPath
            } else if s == d {
                PathPlan::Direct
            } else if rs.group != rd.group {
                PathPlan::NoPath
            } else {
                PathPlan::Search { src_region: s as usize, dst_region: d as usize }
            }
        },
        _ => PathPlan::NoPath,
    }
}

/// A route is planned exactly between reachable positions: the plan is "no
/// path" exactly when the two pixels are not reachable from one another.
pub proof fn lemma_no_path_iff_unreachable(rm: &RegionMap, sx: int, sy: int, dx: int, dy: int)
    ensures
        (plan_spec(rm, sx, sy, dx, dy) is NoPath) <==> !rm.reachable_spec(sx, sy, dx, dy),
{
}

/// A search runs from the region under the source pixel to the region
/// under the destination pixel, and only between two different regions;
/// a direct move is planned only when both pixels lie in one region.
pub proof fn lemma_search_from_source_region(rm: &RegionMap, sx: int, sy: int, dx: int, dy: int)
    ensures
        plan_spec(rm, sx, sy, dx, dy) matches PathPlan::Search { src_region, dst_region } ==> {
            &&& rm.region_at_spec(sx, sy) == Some(src_region as int)
            &&& rm.region_at_spec(dx, dy) == Some(dst_region as int)
            &&& src_region != dst_region
        },
        plan_spec(rm, sx, sy, dx, dy) is Direct ==> rm.region_at_spec(sx, sy) is Some && rm.region_at_spec(sx, sy)
            == rm.region_at_spec(dx, dy),
{
}

/// Decides how to route from `(src_x, src_y)` to `(dst_x, dst_y)`: no path
/// when an endpoint is off the map or unwalkable or the groups differ, a
/// direct move within one region, and otherwise a search between the two regions.
pub fn plan_path(region_map: &RegionMap, src_x: i32, src_y: i32, dst_x: i32, dst_y: i32) -> (r: PathPlan)
    requires
        region_map.wf(),
    ensures
        r == plan_spec(region_map, src_x as int, src_y as int, dst_x as int, dst_y as int),
        r matches PathPlan::Search { src_region, dst_region } ==> {
            &&& region_map.region_at_spec(src_x as int, src_y as int) == Some(src_region as int)
            &&& region_map.region_at_spec(dst_x as int, dst_y as int) == Some(dst_region as int)
            &&& src_region != dst_region
        },
{
    proof {
        lemma_search_from_source_region(region_map, src_x as int, src_y as int, dst_x as int, dst_y as int);
    }
    let src_ri = match region_map.region_at_px(src_x, src_y) {
        Some(ri) => ri,
        None => return PathPlan::NoPath,
    };
    let dst_ri = match region_map.region_at_px(dst_x, dst_y) {
        Some(ri) => ri,
        None => return PathPlan::NoPath,
    };
    proof {
        region_map.lemma_region_at_in_range(src_x as int, src_y as int);
        region_map.lemma_region_at_in_range(dst_x as int, dst_y as int);
    }
    let src_region = match region_map.region(src_ri) {
        Some(r) => r,
        None => return PathPlan::NoPath,
    };
    let dst_region = match region_map.region(dst_ri) {
        Some(r) => r,
        None => return PathPlan::NoPath,
    };
    if !src_region.walkable || !dst_region.walkable {
        return PathPlan::NoPath;
    }
    if src_ri == dst_ri {
        return PathPlan::Direct;
    }
    if src_region.group != dst_region.group {
        return PathPlan::NoPath;
    }
    PathPlan::Search { src_region: src_ri, dst_region: dst_ri }
}

/// The waypoint for one region of a route: the destination itself for the
/// destination region, else the region's centre.
pub open spec fn waypoint_of(regs: Seq<Region>, ri: usize, dst_region: usize, dx: i32, dy: i32) -> (i32, i32) {
    if ri == dst_region {
        (dx, dy)
    } else {
        (regs[ri as int].center_x, regs[ri as int].center_y)
    }
}

/// Waypoints for a route through `path`: one per region, with the
/// destination appended unless it is already last.
pub open spec fn route_spec(regs: Seq<Region>, path: Seq<usize>, dst_region: usize, dx: i32, dy: i32) -> Seq<(i32, i32)> {
    let base = Seq::new(path.len(), |i: int| waypoint_of(regs, path[i], dst_region, dx, dy));
    if base.len() > 0 && base.last() == (dx, dy) {
        base
    } else {
        base.push((dx, dy))
    }
}

/// A route visits the regions of the path in order, stopping at each
/// region's centre except the destination's, where it stops at the
/// destination itself; it never stops more than once past the path, and it
/// always ends at the destination.
pub proof fn lemma_route_ends_at_destination(regs: Seq<Region>, path: Seq<usize>, dst_region: usize, dx: i32, dy: i32)
    ensures
        route_spec(regs, path, dst_region, dx, dy).len() >= 1,
        route_spec(regs, path, dst_region, dx, dy).last() == (dx, dy),
        path.len() <= route_spec(regs, path, dst_region, dx, dy).len() <= path.len() + 1,
        forall|k: int|
            0 <= k < path.len() ==> #[trigger] route_spec(regs, path, dst_region, dx, dy)[k] == if path[k] == dst_region {
                (dx, dy)
            } else {
                (regs[path[k] as int].center_x, regs[path[k] as int].center_y)
            },
{
}

/// Turns a region sequence found by the search (source excluded) into pixel
/// waypoints ending at the destination.
pub fn route_waypoints(region_map: &RegionMap, path_regions: &Vec<usize>, dst_region: usize, dst_x: i32, dst_y: i32) -> (wps: Vec<(i32, i32)>)
    requires
        forall|i: int| 0 <= i < path_regions@.len() ==> #[trigger] path_regions@[i] < region_map.region_seq().len(),
    ensures
        wps@ == route_spec(region_map.region_seq(), path_regions@, dst_region, dst_x, dst_y),
{
    let mut waypoints: Vec<(i32, i32)> = Vec::new();
    let mut i: usize = 0;
    while i < path_regions.len()
        invariant
            i <= path_regions@.len(),
            forall|k: int| 0 <= k < path_regions@.len() ==> #[trigger] path_regions@[k] < region_map.region_seq().len(),
            waypoints@.len() == i,
            forall|k: int| 0 <= k < i ==> #[trigger] waypoints@[k] == waypoint_of(region_map.region_seq(), path_regions@[k], dst_region, dst_x, dst_y),
        decreases path_regions@.len() - i,
    {
        let ri = path_regions[i];
        if ri == dst_region {
            waypoints.push((dst_x, dst_y));
        } else {
            let r = match region_map.region(ri) {
                Some(r) => r,
                None => {
                    proof {
                        assert(false);
                    }
                    return waypoints;
                },
            };
            waypoints.push((r.center_x, r.center_y));
        }
        i = i + 1;
    }
    let ghost base = waypoints@;
    proof {
        assert(base =~= Seq::new(path_regions@.len(), |k: int| waypoint_of(region_map.region_seq(), path_regions@[k], dst_region, dst_x, dst_y)));
    }
    let n = waypoints.len();
    let ends_at_dst = n > 0 && waypoints[n - 1].0 == dst_x && waypoints[n - 1].1 == dst_y;
    if !ends_at_dst {
        waypoints.push((dst_x, dst_y));
    }
    waypoints
}

} // verus!
