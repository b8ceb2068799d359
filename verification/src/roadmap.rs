//! Roads, intersections, tags, and the immutable road network they form.

use vstd::prelude::*;

use crate::geometry::Polygon;
use crate::lane::{Lane, LaneID, LaneType};

verus! {

#[derive(Clone, Copy, Debug, PartialEq, Eq, Structural, Hash)]
pub struct RoadID(pub usize);

#[derive(Clone, Copy, Debug, PartialEq, Eq, Structural, Hash)]
pub struct IntersectionID(pub usize);

/// Which way a lane runs relative to its road's orientation.
#[derive(Clone, Copy, Debug, PartialEq, Eq, Structural, Hash)]
pub enum Direction {
    Fwd,
    Back,
}

/// One side of a road: the road and a direction along it.
#[derive(Clone, Copy, Debug, PartialEq, Eq, Structural, Hash)]
pub struct DirectedRoadID {
    pub id: RoadID,
    pub dir: Direction,
}

/// Key/value tag pairs describing a road, as imported from the source map.
pub struct Tags {
    pub entries: Vec<(String, String)>,
}

/// The value of the first entry carrying the key, if any.
pub open spec fn spec_tags_get(s: Seq<(String, String)>, k: Seq<char>) -> Option<Seq<char>>
    decreases s.len(),
{
    if s.len() == 0 {
        None
    } else if s[0].0@ == k {
        Some(s[0].1@)
    } else {
        spec_tags_get(s.drop_first(), k)
    }
}

impl Tags {
    pub open spec fn spec_get(self, k: Seq<char>) -> Option<Seq<char>> {
        spec_tags_get(self.entries@, k)
    }

    /// Look a key up; the first entry wins.
    pub fn get(&self, key: &str) -> (r: Option<&String>)
        ensures
            r matches Some(v) ==> self.spec_get(key@) == Some(v@),
            r is None ==> self.spec_get(key@) is None,
    {
        let owned = key.to_owned();
        proof {
            assert(self.entries@.skip(0) =~= self.entries@);
        }
        let mut k: usize = 0;
        while k < self.entries.len()
            invariant
                0 <= k <= self.entries@.len(),
                owned@ == key@,
                spec_tags_get(self.entries@, key@) == spec_tags_get(
                    self.entries@.skip(k as int),
                    key@,
                ),
            decreases self.entries@.len() - k,
        {
            proof {
                assert(self.entries@.skip(k as int)[0] == self.entries@[k as int]);
                assert(self.entries@.skip(k as int).drop_first() =~= self.entries@.skip(k + 1));
            }
            if self.entries[k].0 == owned {
                return Some(&self.entries[k].1);
            }
            k = k + 1;
        }
        proof {
            assert(self.entries@.skip(self.entries@.len() as int).len() == 0);
        }
        None
    }

    pub fn contains_key(&self, key: &str) -> (r: bool)
        ensures
            r == (self.spec_get(key@) is Some),
    {
        match self.get(key) {
            Some(_) => true,
            None => false,
        }
    }
}

/// The first lane entry of a road matching a lane id.
pub open spec fn spec_lane_entry(s: Seq<(LaneID, Direction, LaneType)>, l: LaneID) -> Option<
    (LaneID, Direction, LaneType),
>
    decreases s.len(),
{
    if s.len() == 0 {
        None
    } else if s[0].0 == l {
        Some(s[0])
    } else {
        spec_lane_entry(s.drop_first(), l)
    }
}

/// The driving and bus lanes running the given direction, ordered from the
/// left side of that direction.
pub open spec fn spec_children(s: Seq<(LaneID, Direction, LaneType)>, dir: Direction) -> Seq<
    (LaneID, LaneType),
>
    decreases s.len(),
{
    if s.len() == 0 {
        Seq::empty()
    } else {
        let pre = spec_children(s.drop_last(), dir);
        if s.last().1 == dir {
            pre.push((s.last().0, s.last().2))
        } else {
            pre
        }
    }
}

/// A road segment: an ordered list of lanes between two intersections,
/// carrying the source map's tags. Read, never mutated, by the deriver.
pub struct Road {
    pub id: RoadID,
    pub src_i: IntersectionID,
    pub dst_i: IntersectionID,
    pub osm_tags: Tags,
    /// Lanes ordered from the road's left side, each with its direction and
    /// type.
    pub lanes_ltr: Vec<(LaneID, Direction, LaneType)>,
}

impl Road {
    pub open spec fn wf(self) -> bool {
        &&& self.lanes_ltr@.len() >= 1
        &&& self.src_i != self.dst_i
    }

    pub open spec fn spec_dir(self, l: LaneID) -> Direction {
        spec_lane_entry(self.lanes_ltr@, l)->Some_0.1
    }

    /// This road's entry for the given lane, if the lane belongs to it.
    pub fn lane_entry(&self, l: LaneID) -> (r: Option<(LaneID, Direction, LaneType)>)
        ensures
            r == spec_lane_entry(self.lanes_ltr@, l),
    {
        proof {
            assert(self.lanes_ltr@.skip(0) =~= self.lanes_ltr@);
        }
        let mut k: usize = 0;
        while k < self.lanes_ltr.len()
            invariant
                0 <= k <= self.lanes_ltr@.len(),
                spec_lane_entry(self.lanes_ltr@, l) == spec_lane_entry(
                    self.lanes_ltr@.skip(k as int),
                    l,
                ),
            decreases self.lanes_ltr@.len() - k,
        {
            proof {
                assert(self.lanes_ltr@.skip(k as int)[0] == self.lanes_ltr@[k as int]);
                assert(self.lanes_ltr@.skip(k as int).drop_first() =~= self.lanes_ltr@.skip(k + 1));
            }
            if self.lanes_ltr[k].0 == l {
                return Some(self.lanes_ltr[k]);
            }
            k = k + 1;
        }
        proof {
            assert(self.lanes_ltr@.skip(self.lanes_ltr@.len() as int).len() == 0);
        }
        None
    }

    /// Which direction the given lane runs; the lane must belong to this
    /// road.
    pub fn dir(&self, l: LaneID) -> (r: Direction)
        requires
            spec_lane_entry(self.lanes_ltr@, l) is Some,
        ensures
            r == self.spec_dir(l),
    {
        proof {
            assert(self.lanes_ltr@.skip(0) =~= self.lanes_ltr@);
        }
        let mut k: usize = 0;
        while k < self.lanes_ltr.len()
            invariant
                0 <= k <= self.lanes_ltr@.len(),
                spec_lane_entry(self.lanes_ltr@, l) == spec_lane_entry(
                    self.lanes_ltr@.skip(k as int),
                    l,
                ),
                spec_lane_entry(self.lanes_ltr@.skip(k as int), l) is Some,
            decreases self.lanes_ltr@.len() - k,
        {
            proof {
                assert(self.lanes_ltr@.skip(k as int)[0] == self.lanes_ltr@[k as int]);
                assert(self.lanes_ltr@.skip(k as int).drop_first() =~= self.lanes_ltr@.skip(k + 1));
            }
            if self.lanes_ltr[k].0 == l {
                return self.lanes_ltr[k].1;
            }
            k = k + 1;
        }
        proof {
            assert(self.lanes_ltr@.skip(self.lanes_ltr@.len() as int).len() == 0);
            assert(false);
        }
        Direction::Fwd
    }

    /// The lanes running the given direction, from that side's left, with
    /// their types.
    pub fn children(&self, dir: Direction) -> (r: Vec<(LaneID, LaneType)>)
        ensures
            r@ == spec_children(self.lanes_ltr@, dir),
    {
        let mut r: Vec<(LaneID, LaneType)> = Vec::new();
        let mut k: usize = 0;
        while k < self.lanes_ltr.len()
            invariant
                0 <= k <= self.lanes_ltr@.len(),
                r@ == spec_children(self.lanes_ltr@.take(k as int), dir),
            decreases self.lanes_ltr@.len() - k,
        {
            proof {
                assert(self.lanes_ltr@.take(k + 1).drop_last() =~= self.lanes_ltr@.take(k as int));
                assert(self.lanes_ltr@.take(k + 1).last() == self.lanes_ltr@[k as int]);
            }
            let e = self.lanes_ltr[k];
            if e.1 == dir {
                r.push((e.0, e.2));
            }
            k = k + 1;
        }
        proof {
            assert(self.lanes_ltr@.take(self.lanes_ltr@.len() as int) =~= self.lanes_ltr@);
        }
        r
    }

    /// A road that carries only foot traffic.
    pub open spec fn spec_is_footway(self) -> bool {
        forall|k: int|
            0 <= k < self.lanes_ltr@.len() ==> ((#[trigger] self.lanes_ltr@[k].2) is Sidewalk
                || self.lanes_ltr@[k].2 is Shoulder)
    }

    pub fn is_footway(&self) -> (r: bool)
        ensures
            r == self.spec_is_footway(),
    {
        let mut k: usize = 0;
        while k < self.lanes_ltr.len()
            invariant
                0 <= k <= self.lanes_ltr@.len(),
                forall|m: int|
                    0 <= m < k ==> ((#[trigger] self.lanes_ltr@[m].2) is Sidewalk
                        || self.lanes_ltr@[m].2 is Shoulder),
            decreases self.lanes_ltr@.len() - k,
        {
            let t = self.lanes_ltr[k].2;
            if !(t == LaneType::Sidewalk || t == LaneType::Shoulder) {
                return false;
            }
            k = k + 1;
        }
        true
    }
}

/// Where roads meet. The boundary polygon and the angle-sorted order of
/// incident roads are computed when the network is imported and stored.
pub struct Intersection {
    pub id: IntersectionID,
    pub polygon: Polygon,
    /// Incident roads, sorted by incoming angle.
    pub roads: Vec<RoadID>,
}

impl Intersection {
    pub open spec fn wf(self) -> bool {
        &&& self.polygon.wf()
        &&& forall|i: int, j: int|
            0 <= i < j < self.roads@.len() ==> self.roads@[i] != self.roads@[j]
    }

    /// The incident roads, sorted by the angle at which they come in.
    pub fn get_roads_sorted_by_incoming_angle(&self) -> (r: &Vec<RoadID>)
        ensures
            r@ == self.roads@,
    {
        &self.roads
    }

    /// Decide well-formedness at run time, for callers assembling
    /// intersections.
    pub fn check_wf(&self) -> (r: bool)
        ensures
            r == self.wf(),
    {
        if !self.polygon.check_wf() {
            return false;
        }
        let n = self.roads.len();
        let mut a: usize = 0;
        while a < n
            invariant
                0 <= a <= n,
                n == self.roads@.len(),
                forall|i: int, j: int| 0 <= i < j < n && i < a ==> self.roads@[i] != self.roads@[j],
            decreases n - a,
        {
            let mut b: usize = a + 1;
            while b < n
                invariant
                    a < b <= n,
                    a < n,
                    n == self.roads@.len(),
                    forall|j: int| a < j < b ==> self.roads@[a as int] != self.roads@[j],
                decreases n - b,
            {
                if self.roads[a] == self.roads[b] {
                    return false;
                }
                b = b + 1;
            }
            a = a + 1;
        }
        true
    }
}

/// The immutable road network: lanes, roads and intersections, each
/// identified by its index.
pub struct MapModel {
    pub lanes: Vec<Lane>,
    pub roads: Vec<Road>,
    pub intersections: Vec<Intersection>,
}

impl MapModel {
    pub open spec fn lane_ok(self, k: int) -> bool {
        let l = self.lanes@[k];
        &&& l.id == LaneID(k as usize)
        &&& l.wf()
        &&& l.parent.0 < self.roads@.len()
        &&& l.src_i.0 < self.intersections@.len()
        &&& l.dst_i.0 < self.intersections@.len()
        &&& spec_lane_entry(self.roads@[l.parent.0 as int].lanes_ltr@, l.id) matches Some(e)
            && e.2 == l.lane_type
    }

    pub open spec fn road_ok(self, k: int) -> bool {
        let r = self.roads@[k];
        &&& r.id == RoadID(k as usize)
        &&& r.wf()
        &&& r.src_i.0 < self.intersections@.len()
        &&& r.dst_i.0 < self.intersections@.len()
        &&& forall|m: int|
            0 <= m < r.lanes_ltr@.len() ==> {
                let e = #[trigger] r.lanes_ltr@[m];
                &&& e.0.0 < self.lanes@.len()
                &&& self.lanes@[e.0.0 as int].parent == r.id
                &&& self.lanes@[e.0.0 as int].lane_type == e.2
            }
    }

    pub open spec fn intersection_ok(self, k: int) -> bool {
        let i = self.intersections@[k];
        &&& i.id == IntersectionID(k as usize)
        &&& i.wf()
        &&& forall|m: int|
            0 <= m < i.roads@.len() ==> (#[trigger] i.roads@[m]).0 < self.roads@.len()
    }

    pub open spec fn wf(self) -> bool {
        &&& forall|k: int| 0 <= k < self.lanes@.len() ==> self.lane_ok(k)
        &&& forall|k: int| 0 <= k < self.roads@.len() ==> self.road_ok(k)
        &&& forall|k: int| 0 <= k < self.intersections@.len() ==> self.intersection_ok(k)
    }

    /// One lane's conditions, decided at run time.
    fn check_lane_ok(&self, k: usize) -> (r: bool)
        requires
            k < self.lanes@.len(),
        ensures
            r == self.lane_ok(k as int),
    {
        let l = &self.lanes[k];
        if !(l.id == LaneID(k)) {
            return false;
        }
        if !l.check_wf() {
            return false;
        }
        if l.parent.0 >= self.roads.len() {
            return false;
        }
        if l.src_i.0 >= self.intersections.len() || l.dst_i.0 >= self.intersections.len() {
            return false;
        }
        match self.roads[l.parent.0].lane_entry(l.id) {
            Some(e) => e.2 == l.lane_type,
            None => false,
        }
    }

    /// One road's conditions, decided at run time.
    fn check_road_ok(&self, k: usize) -> (r: bool)
        requires
            k < self.roads@.len(),
        ensures
            r == self.road_ok(k as int),
    {
        let rd = &self.roads[k];
        if !(rd.id == RoadID(k)) {
            return false;
        }
        if rd.lanes_ltr.len() < 1 || rd.src_i == rd.dst_i {
            return false;
        }
        if rd.src_i.0 >= self.intersections.len() || rd.dst_i.0 >= self.intersections.len() {
            return false;
        }
        let mut m: usize = 0;
        while m < rd.lanes_ltr.len()
            invariant
                0 <= m <= rd.lanes_ltr@.len(),
                *rd == self.roads@[k as int],
                k < self.roads@.len(),
                forall|p: int|
                    0 <= p < m ==> {
                        let e = #[trigger] rd.lanes_ltr@[p];
                        &&& e.0.0 < self.lanes@.len()
                        &&& self.lanes@[e.0.0 as int].parent == rd.id
                        &&& self.lanes@[e.0.0 as int].lane_type == e.2
                    },
            decreases rd.lanes_ltr@.len() - m,
        {
            let e = rd.lanes_ltr[m];
            if e.0.0 >= self.lanes.len() {
                return false;
            }
            if !(self.lanes[e.0.0].parent == rd.id) || !(self.lanes[e.0.0].lane_type == e.2) {
                return false;
            }
            m = m + 1;
        }
        true
    }

    /// One intersection's conditions, decided at run time.
    fn check_intersection_ok(&self, k: usize) -> (r: bool)
        requires
            k < self.intersections@.len(),
        ensures
            r == self.intersection_ok(k as int),
    {
        let inter = &self.intersections[k];
        if !(inter.id == IntersectionID(k)) {
            return false;
        }
        if !inter.check_wf() {
            return false;
        }
        let mut m: usize = 0;
        while m < inter.roads.len()
            invariant
                0 <= m <= inter.roads@.len(),
                *inter == self.intersections@[k as int],
                k < self.intersections@.len(),
                forall|p: int|
                    0 <= p < m ==> (#[trigger] inter.roads@[p]).0 < self.roads@.len(),
            decreases inter.roads@.len() - m,
        {
            if inter.roads[m].0 >= self.roads.len() {
                return false;
            }
            m = m + 1;
        }
        true
    }

    /// Decide the whole network's well-formedness at run time, so that a
    /// network builder or a driver can validate an assembled map before
    /// calling anything that relies on `wf`.
    pub fn check_wf(&self) -> (r: bool)
        ensures
            r == self.wf(),
    {
        let mut k: usize = 0;
        while k < self.lanes.len()
            invariant
                0 <= k <= self.lanes@.len(),
                forall|m: int| 0 <= m < k ==> self.lane_ok(m),
            decreases self.lanes@.len() - k,
        {
            if !self.check_lane_ok(k) {
                return false;
            }
            k = k + 1;
        }
        let mut k: usize = 0;
        while k < self.roads.len()
            invariant
                0 <= k <= self.roads@.len(),
                forall|m: int| 0 <= m < self.lanes@.len() ==> self.lane_ok(m),
                forall|m: int| 0 <= m < k ==> self.road_ok(m),
            decreases self.roads@.len() - k,
        {
            if !self.check_road_ok(k) {
                return false;
            }
            k = k + 1;
        }
        let mut k: usize = 0;
        while k < self.intersections.len()
            invariant
                0 <= k <= self.intersections@.len(),
                forall|m: int| 0 <= m < self.lanes@.len() ==> self.lane_ok(m),
                forall|m: int| 0 <= m < self.roads@.len() ==> self.road_ok(m),
                forall|m: int| 0 <= m < k ==> self.intersection_ok(m),
            decreases self.intersections@.len() - k,
        {
            if !self.check_intersection_ok(k) {
                return false;
            }
            k = k + 1;
        }
        true
    }

    pub fn get_l(&self, id: LaneID) -> (r: &Lane)
        requires
            id.0 < self.lanes@.len(),
        ensures
            *r == self.lanes@[id.0 as int],
    {
        &self.lanes[id.0]
    }

    pub fn get_r(&self, id: RoadID) -> (r: &Road)
        requires
            id.0 < self.roads@.len(),
        ensures
            *r == self.roads@[id.0 as int],
    {
        &self.roads[id.0]
    }

    pub fn get_i(&self, id: IntersectionID) -> (r: &Intersection)
        requires
            id.0 < self.intersections@.len(),
        ensures
            *r == self.intersections@[id.0 as int],
    {
        &self.intersections[id.0]
    }

    /// The road owning the given lane.
    pub fn get_parent(&self, id: LaneID) -> (r: &Road)
        requires
            self.wf(),
            id.0 < self.lanes@.len(),
        ensures
            *r == self.roads@[self.lanes@[id.0 as int].parent.0 as int],
    {
        proof {
            assert(self.lane_ok(id.0 as int));
        }
        let parent = self.lanes[id.0].parent;
        self.get_r(parent)
    }
}

impl Lane {
    /// The side of the owning road this lane runs along.
    pub fn get_directed_parent(&self, map: &MapModel) -> (r: DirectedRoadID)
        requires
            map.wf(),
            self.id.0 < map.lanes@.len(),
            map.lanes@[self.id.0 as int] == *self,
        ensures
            r.id == self.parent,
            r.dir == map.roads@[self.parent.0 as int].spec_dir(self.id),
    {
        proof {
            assert(map.lane_ok(self.id.0 as int));
            assert(map.road_ok(self.parent.0 as int));
        }
        let r = map.get_r(self.parent);
        DirectedRoadID { id: r.id, dir: r.dir(self.id) }
    }
}

} // verus!
