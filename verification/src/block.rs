//! Tracing the closed boundary of a city block: starting from one outermost
//! lane, follow its left edge to the intersection, bridge across the
//! intersection's boundary ring, and continue counter-clockwise road by
//! road until the walk returns to the start.

use vstd::prelude::*;

use crate::geometry::{
    all_in_range, all_valid, copy_subrange, first_index, reverse_pts, shift_left_pts,
    spec_polygon_new, spec_shift, spec_shorter_slice, Polygon, Pt, MAX_PTS,
};
use crate::lane::{Lane, LaneID};
use crate::roadmap::{IntersectionID, MapModel, RoadID};

verus! {

/// The intersection a lane walks into when traveled with the given
/// orientation.
pub open spec fn spec_exit_i(l: Lane, fwd: bool) -> IntersectionID {
    if fwd {
        l.dst_i
    } else {
        l.src_i
    }
}

/// The intersection a lane leaves when traveled with the given orientation.
pub open spec fn spec_entry_i(l: Lane, fwd: bool) -> IntersectionID {
    if fwd {
        l.src_i
    } else {
        l.dst_i
    }
}

/// The incident roads of an intersection with footways dropped, keeping the
/// stored angle order.
pub open spec fn spec_retain_nonfootway(map: MapModel, s: Seq<RoadID>) -> Seq<RoadID>
    decreases s.len(),
{
    if s.len() == 0 {
        Seq::empty()
    } else {
        let pre = spec_retain_nonfootway(map, s.drop_last());
        if !map.roads@[s.last().0 as int].spec_is_footway() {
            pre.push(s.last())
        } else {
            pre
        }
    }
}

/// One step of the walk: at the exit intersection, find the current road
/// among the non-footway incident roads and take the next one
/// counter-clockwise; enter it on the leftmost lane when it points away
/// from the intersection, on the rightmost when it points in. `None` when
/// the current road is not among the retained roads.
pub open spec fn spec_next(map: MapModel, l: LaneID, fwd: bool) -> Option<
    (LaneID, bool, IntersectionID),
> {
    let lane = map.lanes@[l.0 as int];
    let i = spec_exit_i(lane, fwd);
    let roads = spec_retain_nonfootway(map, map.intersections@[i.0 as int].roads@);
    let idx = first_index(roads, lane.parent);
    if idx < 0 {
        None
    } else {
        let next_road_id = roads[(idx + 1) % (roads.len() as int)];
        let nr = map.roads@[next_road_id.0 as int];
        let next_lane = if nr.src_i == i {
            nr.lanes_ltr@[0].0
        } else {
            nr.lanes_ltr@.last().0
        };
        Some((next_lane, map.lanes@[next_lane.0 as int].src_i == i, i))
    }
}

/// The boundary-following points one lane contributes: its centerline,
/// reversed when traveled against its orientation, moved left by half the
/// lane's width.
pub open spec fn spec_lane_edge_pts(map: MapModel, l: LaneID, fwd: bool) -> Seq<Pt> {
    let lane = map.lanes@[l.0 as int];
    let base = if fwd {
        lane.lane_center_pts.pts@
    } else {
        lane.lane_center_pts.pts@.reverse()
    };
    spec_shift(base, (lane.width / 2) as nat)
}

/// The points bridging the gap between the trail so far and the next lane's
/// first edge point: the shorter arc of the entry intersection's boundary
/// ring, or nothing when the points already meet or the arc cannot be
/// found.
pub open spec fn spec_bridge(map: MapModel, l: LaneID, fwd: bool, last_pt: Pt, first_new: Pt) -> Seq<
    Pt,
> {
    if last_pt == first_new {
        Seq::empty()
    } else {
        let lane = map.lanes@[l.0 as int];
        let i = spec_entry_i(lane, fwd);
        match spec_shorter_slice(
            map.intersections@[i.0 as int].polygon.corners(),
            last_pt,
            first_new,
        ) {
            None => Seq::empty(),
            Some(arc) => arc,
        }
    }
}

/// The whole walk, carrying the lanes visited and the points accumulated.
/// It ends when the next lane is the start lane; a revisit before that, or
/// a step that cannot be taken, is a failure. The fuel only bounds the
/// recursion; the walk always ends before fuel runs out because every round
/// visits a fresh lane.
pub open spec fn spec_walk(
    map: MapModel,
    start: LaneID,
    current: LaneID,
    fwd: bool,
    visited: Seq<LaneID>,
    pts: Seq<Pt>,
    fuel: nat,
) -> Option<(Seq<LaneID>, Seq<Pt>)>
    decreases fuel,
{
    if fuel == 0 {
        None
    } else {
        let lane_pts = spec_lane_edge_pts(map, current, fwd);
        let bridged = if pts.len() > 0 {
            pts + spec_bridge(map, current, fwd, pts.last(), lane_pts[0]) + lane_pts
        } else {
            lane_pts
        };
        match spec_next(map, current, fwd) {
            None => None,
            Some((next, nfwd, _i)) => {
                if next == start {
                    Some((visited, bridged))
                } else if visited.contains(current) {
                    None
                } else {
                    spec_walk(
                        map,
                        start,
                        next,
                        nfwd,
                        visited.push(current),
                        bridged,
                        (fuel - 1) as nat,
                    )
                }
            },
        }
    }
}

/// The walk around the block a lane borders, started on that lane's own
/// orientation: forward exactly when it is the leftmost lane of its road.
pub open spec fn spec_trace(map: MapModel, start: LaneID) -> Option<(Seq<LaneID>, Seq<Pt>)> {
    let fwd0 = map.roads@[map.lanes@[start.0 as int].parent.0 as int].lanes_ltr@[0].0 == start;
    spec_walk(map, start, start, fwd0, Seq::empty(), Seq::empty(), map.lanes@.len() + 1)
}

/// The successor index on a ring of `n` slots.
pub open spec fn ring_next(j: int, n: int) -> int {
    if j == n - 1 {
        0
    } else {
        j + 1
    }
}

/// The predecessor index on a ring of `n` slots.
pub open spec fn ring_prev(j: int, n: int) -> int {
    if j == 0 {
        n - 1
    } else {
        j - 1
    }
}

/// The index `d` steps past `s` on a ring of `n` slots.
pub open spec fn ring_add(s: int, d: nat, n: int) -> int
    decreases d,
{
    if d == 0 {
        s
    } else {
        ring_next(ring_add(s, (d - 1) as nat, n), n)
    }
}

/// Walking `d <= n` steps from `s` lands on `s + d`, wrapped once.
proof fn lemma_ring_add_closed(s: int, d: nat, n: int)
    requires
        0 <= s < n,
        d <= n,
    ensures
        ring_add(s, d, n) == if s + d < n {
            s + d
        } else {
            s + d - n
        },
    decreases d,
{
    if d > 0 {
        lemma_ring_add_closed(s, (d - 1) as nat, n);
    }
}

/// A city block of `n` roads arranged as a simple ring: road `j` carries
/// exactly one forward lane from intersection `j` to intersection `j + 1`,
/// and each intersection lists its two incident roads, the incoming one
/// first. None of the roads is a footway.
pub open spec fn is_simple_ring(map: MapModel, n: int) -> bool {
    &&& map.wf()
    &&& 3 <= n <= usize::MAX
    &&& map.lanes@.len() == n
    &&& map.roads@.len() == n
    &&& map.intersections@.len() == n
    &&& forall|j: int|
        0 <= j < n ==> {
            let lane = #[trigger] map.lanes@[j];
            &&& lane.parent == RoadID(j as usize)
            &&& lane.src_i == IntersectionID(j as usize)
            &&& lane.dst_i == IntersectionID(ring_next(j, n) as usize)
        }
    &&& forall|j: int|
        0 <= j < n ==> {
            let road = #[trigger] map.roads@[j];
            &&& road.lanes_ltr@.len() == 1
            &&& road.lanes_ltr@[0].0 == LaneID(j as usize)
            &&& road.src_i == IntersectionID(j as usize)
            &&& road.dst_i == IntersectionID(ring_next(j, n) as usize)
            &&& !road.spec_is_footway()
        }
    &&& forall|j: int|
        0 <= j < n ==> {
            let inter = #[trigger] map.intersections@[j];
            inter.roads@ =~= seq![RoadID(ring_prev(j, n) as usize), RoadID(j as usize)]
        }
}

/// On a simple ring, the walk always advances to the next road's lane,
/// entering it forward.
proof fn lemma_ring_step(map: MapModel, n: int, j: int)
    requires
        is_simple_ring(map, n),
        0 <= j < n,
    ensures
        spec_next(map, LaneID(j as usize), true) == Some(
            (
                LaneID(ring_next(j, n) as usize),
                true,
                IntersectionID(ring_next(j, n) as usize),
            ),
        ),
{
    let lane = map.lanes@[j];
    let m = ring_next(j, n);
    let i = IntersectionID(m as usize);
    assert(spec_exit_i(lane, true) == i);
    let stored = map.intersections@[m].roads@;
    assert(stored =~= seq![RoadID(ring_prev(m, n) as usize), RoadID(m as usize)]);
    assert(ring_prev(m, n) == j);
    let roads = spec_retain_nonfootway(map, stored);
    assert(roads =~= stored) by {
        assert(stored.drop_last() =~= seq![RoadID(j as usize)]);
        assert(stored.drop_last().drop_last() =~= Seq::<RoadID>::empty());
        assert(!map.roads@[j].spec_is_footway());
        assert(!map.roads@[m].spec_is_footway());
        assert(spec_retain_nonfootway(map, Seq::<RoadID>::empty()) =~= Seq::<RoadID>::empty());
        assert(spec_retain_nonfootway(map, stored.drop_last()) =~= seq![RoadID(j as usize)]);
    }
    assert(j != m);
    assert(first_index(roads, lane.parent) == 0) by {
        assert(roads[0] == RoadID(j as usize));
    }
    assert(1int % (roads.len() as int) == 1) by {
        vstd::arithmetic::div_mod::lemma_small_mod(1nat, 2nat);
    }
    assert(roads[1] == RoadID(m as usize));
    let nr = map.roads@[m];
    assert(nr.src_i == i);
    assert(nr.lanes_ltr@[0].0 == LaneID(m as usize));
    assert(map.lanes@[m].src_i == i);
}

/// Two different step counts under `n` land on different ring slots.
proof fn lemma_ring_add_injective(s: int, a: nat, b: nat, n: int)
    requires
        0 <= s < n,
        a < b,
        b < n,
    ensures
        ring_add(s, a, n) != ring_add(s, b, n),
{
    lemma_ring_add_closed(s, a, n);
    lemma_ring_add_closed(s, b, n);
}

/// Along a simple ring, a walk that has already passed the first `k` lanes
/// closes: it never steps onto a lane it has seen, and ends with exactly
/// `n - 1` lanes recorded.
proof fn lemma_ring_walk_closes(
    map: MapModel,
    n: int,
    s: int,
    k: nat,
    visited: Seq<LaneID>,
    pts: Seq<Pt>,
    fuel: nat,
)
    requires
        is_simple_ring(map, n),
        0 <= s < n,
        k <= n - 1,
        fuel >= n - k,
        visited.len() == k,
        forall|m: int|
            0 <= m < k ==> #[trigger] visited[m] == LaneID(ring_add(s, m as nat, n) as usize),
    ensures
        spec_walk(
            map,
            LaneID(s as usize),
            LaneID(ring_add(s, k, n) as usize),
            true,
            visited,
            pts,
            fuel,
        ) matches Some(w) && w.0.len() == n - 1,
    decreases n - k,
{
    let j = ring_add(s, k, n);
    lemma_ring_add_closed(s, k, n);
    let current = LaneID(j as usize);
    lemma_ring_step(map, n, j);
    let next_j = ring_next(j, n);
    lemma_ring_add_closed(s, (k + 1) as nat, n);
    assert(ring_add(s, (k + 1) as nat, n) == next_j);
    if next_j == s {
        assert(k == n - 1);
    } else {
        assert(k < n - 1);
        assert(!visited.contains(current)) by {
            if visited.contains(current) {
                let m = choose|m: int| 0 <= m < visited.len() && visited[m] == current;
                lemma_ring_add_injective(s, m as nat, k, n);
                lemma_ring_add_closed(s, m as nat, n);
                assert(0 <= ring_add(s, m as nat, n) < n);
                assert(0 <= ring_add(s, k, n) < n);
            }
        }
        let pushed = visited.push(current);
        assert(forall|m: int|
            0 <= m < k + 1 ==> #[trigger] pushed[m] == LaneID(ring_add(s, m as nat, n) as usize));
        lemma_ring_walk_closes(
            map,
            n,
            s,
            (k + 1) as nat,
            pushed,
            if pts.len() > 0 {
                pts + spec_bridge(
                    map,
                    current,
                    true,
                    pts.last(),
                    spec_lane_edge_pts(map, current, true)[0],
                ) + spec_lane_edge_pts(map, current, true)
            } else {
                spec_lane_edge_pts(map, current, true)
            },
            (fuel - 1) as nat,
        );
    }
}

/// On a closed, simple ring of `n` one-lane roads, the boundary walk from
/// any lane closes, and it records exactly `n - 1` lanes besides the one
/// the start lane's own entry heads: the final lane before closing is not
/// recorded, so the walk passed every other lane exactly once.
pub proof fn lemma_ring_block_visits(map: MapModel, n: int, s: int)
    requires
        is_simple_ring(map, n),
        0 <= s < n,
    ensures
        spec_trace(map, LaneID(s as usize)) matches Some(w) && w.0.len() == n - 1,
{
    let start = LaneID(s as usize);
    assert(map.lanes@[s].parent == RoadID(s as usize));
    assert(map.roads@[s].lanes_ltr@[0].0 == start);
    assert(ring_add(s, 0, n) == s);
    lemma_ring_walk_closes(map, n, s, 0, Seq::empty(), Seq::empty(), map.lanes@.len() + 1);
}

/// Distinct lane ids below a bound cannot outnumber the bound.
proof fn lemma_distinct_lane_ids_bound(ids: Seq<LaneID>, n: nat)
    requires
        ids.no_duplicates(),
        forall|k: int| 0 <= k < ids.len() ==> (#[trigger] ids[k]).0 < n,
    ensures
        ids.len() <= n,
{
    broadcast use vstd::seq_lib::group_seq_lib_default;

    let nums = ids.map_values(|l: LaneID| l.0 as int);
    assert(nums.no_duplicates()) by {
        assert forall|i: int, j: int| 0 <= i < j < nums.len() implies nums[i] != nums[j] by {
            assert(ids[i] != ids[j]);
        }
    }
    let range = vstd::set_lib::set_int_range(0, n as int);
    assert forall|x: int| nums.to_set().contains(x) implies range.contains(x) by {
        assert(nums.contains(x));
        let k = choose|k: int| 0 <= k < nums.len() && nums[k] == x;
        assert(ids[k].0 < n);
    }
    nums.unique_seq_to_set();
    vstd::set_lib::lemma_int_range(0, n as int);
    vstd::set_lib::lemma_len_subset(nums.to_set(), range);
}

/// Whether a lane id occurs in a list.
fn contains_lane(v: &Vec<LaneID>, x: LaneID) -> (r: bool)
    ensures
        r == v@.contains(x),
{
    let mut k: usize = 0;
    while k < v.len()
        invariant
            0 <= k <= v@.len(),
            forall|m: int| 0 <= m < k ==> v@[m] != x,
        decreases v@.len() - k,
    {
        if v[k] == x {
            return true;
        }
        k = k + 1;
    }
    false
}

/// Find the position of a road id in an ordered road list.
fn find_road(roads: &Vec<RoadID>, x: RoadID) -> (r: Option<usize>)
    ensures
        r matches Some(k) ==> {
            &&& first_index(roads@, x) == k as int
            &&& k < roads@.len()
        },
        r is None ==> first_index(roads@, x) == -1,
{
    let mut j: usize = 0;
    while j < roads.len()
        invariant
            0 <= j <= roads@.len(),
            forall|m: int| 0 <= m < j ==> roads@[m] != x,
        decreases roads@.len() - j,
    {
        if roads[j] == x {
            proof {
                crate::geometry::lemma_first_index_char(roads@, x, j as int);
            }
            return Some(j);
        }
        j = j + 1;
    }
    proof {
        crate::geometry::lemma_first_index_absent(roads@, x);
    }
    None
}

/// Append a slice of points to a trail.
fn extend_pts(dst: &mut Vec<Pt>, src: &Vec<Pt>)
    ensures
        final(dst)@ == old(dst)@ + src@,
{
    let mut k: usize = 0;
    while k < src.len()
        invariant
            0 <= k <= src@.len(),
            dst@ == old(dst)@ + src@.take(k as int),
        decreases src@.len() - k,
    {
        dst.push(src[k]);
        proof {
            assert(old(dst)@ + src@.take(k + 1) =~= (old(dst)@ + src@.take(k as int)).push(
                src@[k as int],
            ));
        }
        k = k + 1;
    }
    proof {
        assert(old(dst)@ + src@.take(src@.len() as int) =~= old(dst)@ + src@);
    }
}

/// The non-footway incident roads of an intersection, in stored order.
fn retain_nonfootway(map: &MapModel, i: IntersectionID) -> (r: Vec<RoadID>)
    requires
        map.wf(),
        i.0 < map.intersections@.len(),
    ensures
        r@ == spec_retain_nonfootway(*map, map.intersections@[i.0 as int].roads@),
        forall|k: int| 0 <= k < r@.len() ==> (#[trigger] r@[k]).0 < map.roads@.len(),
{
    proof {
        assert(map.intersection_ok(i.0 as int));
    }
    let inter = map.get_i(i);
    let ghost s = inter.roads@;
    let mut r: Vec<RoadID> = Vec::new();
    let mut k: usize = 0;
    while k < inter.roads.len()
        invariant
            0 <= k <= s.len(),
            s == inter.roads@,
            s == map.intersections@[i.0 as int].roads@,
            map.wf(),
            i.0 < map.intersections@.len(),
            r@ == spec_retain_nonfootway(*map, s.take(k as int)),
            forall|m: int| 0 <= m < r@.len() ==> (#[trigger] r@[m]).0 < map.roads@.len(),
        decreases s.len() - k,
    {
        proof {
            assert(map.intersection_ok(i.0 as int));
            assert(s[k as int].0 < map.roads@.len());
            assert(s.take(k + 1).drop_last() =~= s.take(k as int));
            assert(s.take(k + 1).last() == s[k as int]);
        }
        let rid = inter.roads[k];
        let road = map.get_r(rid);
        if !road.is_footway() {
            r.push(rid);
        }
        k = k + 1;
    }
    proof {
        assert(s.take(s.len() as int) =~= s);
    }
    r
}

impl Lane {
    /// Starting from this lane, follow the lane's left edge to the
    /// intersection, continuing to walk around the block until the walk
    /// reaches the starting lane again. This only makes sense for the
    /// outermost lanes on a road. Returns the boundary polygon and the
    /// lanes visited in order (the final lane before closing is not
    /// listed). Reports `None` when the walk revisits a lane before
    /// closing, when a road cannot be placed at an intersection, or when
    /// the collected boundary does not form a usable ring.
    pub fn trace_around_block(&self, map: &MapModel) -> (r: Option<(Polygon, Vec<LaneID>)>)
        requires
            map.wf(),
            self.id.0 < map.lanes@.len(),
            map.lanes@[self.id.0 as int] == *self,
        ensures
            r matches Some(p) ==> {
                &&& spec_trace(*map, self.id) matches Some(w) && p.1@ == w.0
                    && spec_polygon_new(w.1) == Some(p.0.pts@)
                &&& p.0.wf()
            },
            r is None ==> (spec_trace(*map, self.id) is None || (spec_trace(*map, self.id)
                matches Some(w) && (w.1.len() >= MAX_PTS || spec_polygon_new(w.1) is None))),
    {
        let start = self.id;
        let ghost n_lanes = map.lanes@.len();
        proof {
            assert(map.lane_ok(start.0 as int));
            assert(map.road_ok(map.lanes@[start.0 as int].parent.0 as int));
        }
        let parent = map.get_parent(start);
        let mut fwd = parent.lanes_ltr[0].0 == start;
        let mut current = start;
        let mut pts: Vec<Pt> = Vec::new();
        let mut visited: Vec<LaneID> = Vec::new();
        proof {
            assert(spec_walk(
                *map,
                start,
                current,
                fwd,
                visited@,
                pts@,
                (n_lanes + 1 - visited@.len()) as nat,
            ) == spec_trace(*map, start));
        }
        loop
            invariant_except_break
                spec_walk(
                    *map,
                    start,
                    current,
                    fwd,
                    visited@,
                    pts@,
                    (n_lanes + 1 - visited@.len()) as nat,
                ) == spec_trace(*map, start),
            invariant
                map.wf(),
                start == self.id,
                start.0 < map.lanes@.len(),
                current.0 < map.lanes@.len(),
                n_lanes == map.lanes@.len(),
                visited@.no_duplicates(),
                forall|k: int| 0 <= k < visited@.len() ==> (#[trigger] visited@[k]).0 < n_lanes,
                all_in_range(pts@),
            ensures
                spec_trace(*map, start) matches Some(w) && w.0 == visited@ && w.1 == pts@,
                all_in_range(pts@),
            decreases n_lanes + 1 - visited@.len(),
        {
            proof {
                lemma_distinct_lane_ids_bound(visited@, n_lanes);
                assert(map.lane_ok(current.0 as int));
            }
            let l = map.get_l(current);
            let base = if fwd {
                copy_subrange(&l.lane_center_pts.pts, 0, l.lane_center_pts.pts.len())
            } else {
                reverse_pts(&l.lane_center_pts.pts)
            };
            proof {
                assert(l.lane_center_pts.pts@.subrange(
                    0,
                    l.lane_center_pts.pts@.len() as int,
                ) =~= l.lane_center_pts.pts@);
                assert(all_valid(base@)) by {
                    assert forall|m: int| 0 <= m < base@.len() implies (
                    #[trigger] base@[m]).valid() by {
                        if fwd {
                            assert(base@[m] == l.lane_center_pts.pts@[m]);
                        } else {
                            assert(base@[m] == l.lane_center_pts.pts@[l.lane_center_pts.pts@.len()
                                - 1 - m]);
                        }
                    }
                }
            }
            let lane_pts = shift_left_pts(&base, l.width / 2);
            proof {
                assert(lane_pts@ == spec_lane_edge_pts(*map, current, fwd));
            }
            let ghost pts_before = pts@;
            if pts.len() > 0 {
                let last_pt = pts[pts.len() - 1];
                if !(last_pt == lane_pts[0]) {
                    let last_i = if fwd {
                        l.src_i
                    } else {
                        l.dst_i
                    };
                    proof {
                        assert(map.intersection_ok(last_i.0 as int));
                    }
                    let inter = map.get_i(last_i);
                    match inter.polygon.shorter_slice(last_pt, lane_pts[0]) {
                        Some(arc) => {
                            let ghost before_arc = pts@;
                            extend_pts(&mut pts, &arc);
                            proof {
                                assert forall|m: int| 0 <= m < pts@.len() implies (
                                #[trigger] pts@[m]).in_range() by {
                                    if m < before_arc.len() {
                                        assert(pts@[m] == before_arc[m]);
                                    } else {
                                        assert(pts@[m] == arc@[m - before_arc.len()]);
                                    }
                                }
                            }
                        },
                        None => {},
                    }
                }
                proof {
                    assert(pts@ =~= pts_before + spec_bridge(
                        *map,
                        current,
                        fwd,
                        pts_before.last(),
                        lane_pts@[0],
                    ));
                }
            }
            let ghost pts_mid = pts@;
            extend_pts(&mut pts, &lane_pts);
            proof {
                if pts_before.len() > 0 {
                    assert(pts@ =~= pts_before + spec_bridge(
                        *map,
                        current,
                        fwd,
                        pts_before.last(),
                        lane_pts@[0],
                    ) + lane_pts@);
                } else {
                    assert(pts@ =~= lane_pts@);
                }
                assert forall|m: int| 0 <= m < pts@.len() implies (
                #[trigger] pts@[m]).in_range() by {
                    if m < pts_mid.len() {
                        assert(pts@[m] == pts_mid[m]);
                    } else {
                        assert(pts@[m] == lane_pts@[m - pts_mid.len()]);
                    }
                }
            }
            let i = if fwd {
                l.dst_i
            } else {
                l.src_i
            };
            let roads = retain_nonfootway(map, i);
            let idx = match find_road(&roads, l.parent) {
                Some(x) => x,
                None => {
                    proof {
                        assert(spec_next(*map, current, fwd) is None);
                        assert(spec_trace(*map, start) is None);
                    }
                    return None;
                },
            };
            let wrapped: usize = if idx == roads.len() - 1 {
                0
            } else {
                idx + 1
            };
            proof {
                if idx + 1 == roads@.len() {
                    vstd::arithmetic::div_mod::lemma_mod_self_0(roads@.len() as int);
                } else {
                    vstd::arithmetic::div_mod::lemma_small_mod((idx + 1) as nat, roads@.len() as nat);
                }
                assert(wrapped as int == (idx + 1) % (roads@.len() as int));
            }
            let next_road_id = roads[wrapped];
            proof {
                assert(map.road_ok(next_road_id.0 as int));
            }
            let nr = map.get_r(next_road_id);
            let next_lane = if nr.src_i == i {
                nr.lanes_ltr[0].0
            } else {
                nr.lanes_ltr[nr.lanes_ltr.len() - 1].0
            };
            proof {
                assert(spec_next(*map, current, fwd) == Some(
                    (next_lane, map.lanes@[next_lane.0 as int].src_i == i, i),
                ));
            }
            if next_lane == start {
                proof {
                    assert(spec_trace(*map, start) == Some((visited@, pts@)));
                }
                break ;
            }
            if contains_lane(&visited, current) {
                proof {
                    assert(spec_trace(*map, start) is None);
                }
                return None;
            }
            let ghost old_visited = visited@;
            visited.push(current);
            proof {
                assert forall|a: int, b: int|
                    0 <= a < b < visited@.len() implies visited@[a] != visited@[b] by {
                    if b < visited@.len() - 1 {
                        assert(old_visited[a] == visited@[a] && old_visited[b] == visited@[b]);
                    } else {
                        assert(visited@[b] == current);
                        assert(old_visited[a] == visited@[a]);
                        assert(!old_visited.contains(current));
                    }
                }
            }
            current = next_lane;
            fwd = map.get_l(current).src_i == i;
        }
        if pts.len() >= MAX_PTS {
            return None;
        }
        match Polygon::new(&pts) {
            Some(poly) => Some((poly, visited)),
            None => None,
        }
    }
}

} // verus!
