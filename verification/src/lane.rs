//! Lanes: identity, type classification, and per-lane derived data.

use vstd::prelude::*;

use crate::geometry::{Line, Polyline, Pt, spec_polyline_len, first_index, MAX_WIDTH};
use crate::roadmap::{IntersectionID, RoadID};

verus! {

/// Bit longer than the longest car, in centimeters.
pub const PARKING_SPOT_LENGTH: u64 = 800;

/// On-street spot length is too conservative for parking lots; those pack
/// spots at 0.8 of it.
pub const PARKING_LOT_SPOT_LENGTH: u64 = 640;

#[derive(Clone, Copy, Debug, PartialEq, Eq, Structural, Hash)]
pub struct LaneID(pub usize);

#[derive(Clone, Copy, Debug, PartialEq, Eq, Structural, Hash)]
pub struct BusStopID(pub usize);

/// One traversable strip within a road segment, typed by travel mode.
#[derive(Clone, Copy, Debug, PartialEq, Eq, Structural)]
pub enum LaneType {
    Driving,
    Parking,
    Sidewalk,
    /// Walkable like a Sidewalk, but very narrow. Models pedestrians walking
    /// on roads without sidewalks.
    Shoulder,
    Biking,
    Bus,
    SharedLeftTurn,
    Construction,
    LightRail,
}

impl LaneType {
    /// Whether vehicles (cars, bikes, buses, trains) travel along this lane.
    pub fn is_for_moving_vehicles(self) -> (r: bool)
        ensures
            r == (self is Driving || self is Biking || self is Bus || self is LightRail),
    {
        match self {
            LaneType::Driving => true,
            LaneType::Biking => true,
            LaneType::Bus => true,
            LaneType::Parking => false,
            LaneType::Sidewalk => false,
            LaneType::Shoulder => false,
            LaneType::SharedLeftTurn => false,
            LaneType::Construction => false,
            LaneType::LightRail => true,
        }
    }

    /// Whether any agent at all (vehicle or pedestrian) can move along this lane.
    pub fn supports_any_movement(self) -> (r: bool)
        ensures
            r == (self is Driving || self is Biking || self is Bus || self is Sidewalk
                || self is Shoulder || self is LightRail),
    {
        match self {
            LaneType::Driving => true,
            LaneType::Biking => true,
            LaneType::Bus => true,
            LaneType::Parking => false,
            LaneType::Sidewalk => true,
            LaneType::Shoulder => true,
            LaneType::SharedLeftTurn => false,
            LaneType::Construction => false,
            LaneType::LightRail => true,
        }
    }

    /// A long human-readable description of the lane type.
    pub open spec fn spec_describe(self) -> Seq<char> {
        match self {
            LaneType::Driving => "a general-purpose driving lane"@,
            LaneType::Biking => "a protected bike lane"@,
            LaneType::Bus => "a bus-only lane"@,
            LaneType::Parking => "an on-street parking lane"@,
            LaneType::Sidewalk => "a sidewalk"@,
            LaneType::Shoulder => "a shoulder"@,
            LaneType::SharedLeftTurn => "a shared left-turn lane"@,
            LaneType::Construction => "a lane that's closed for construction"@,
            LaneType::LightRail => "a light rail track"@,
        }
    }

    pub fn describe(self) -> (r: &'static str)
        ensures
            r@ == self.spec_describe(),
    {
        match self {
            LaneType::Driving => "a general-purpose driving lane",
            LaneType::Biking => "a protected bike lane",
            LaneType::Bus => "a bus-only lane",
            LaneType::Parking => "an on-street parking lane",
            LaneType::Sidewalk => "a sidewalk",
            LaneType::Shoulder => "a shoulder",
            LaneType::SharedLeftTurn => "a shared left-turn lane",
            LaneType::Construction => "a lane that's closed for construction",
            LaneType::LightRail => "a light rail track",
        }
    }

    /// A short label for the lane type.
    pub open spec fn spec_short_name(self) -> Seq<char> {
        match self {
            LaneType::Driving => "driving lane"@,
            LaneType::Biking => "bike lane"@,
            LaneType::Bus => "bus lane"@,
            LaneType::Parking => "parking lane"@,
            LaneType::Sidewalk => "sidewalk"@,
            LaneType::Shoulder => "shoulder"@,
            LaneType::SharedLeftTurn => "left-turn lane"@,
            LaneType::Construction => "construction"@,
            LaneType::LightRail => "light rail track"@,
        }
    }

    pub fn short_name(self) -> (r: &'static str)
        ensures
            r@ == self.spec_short_name(),
    {
        match self {
            LaneType::Driving => "driving lane",
            LaneType::Biking => "bike lane",
            LaneType::Bus => "bus lane",
            LaneType::Parking => "parking lane",
            LaneType::Sidewalk => "sidewalk",
            LaneType::Shoulder => "shoulder",
            LaneType::SharedLeftTurn => "left-turn lane",
            LaneType::Construction => "construction",
            LaneType::LightRail => "light rail track",
        }
    }
}

/// On-street parking capacity derived from a lane length in centimeters:
/// one spot per spot-length, minus the two spots reserved at the
/// intersection ends, never negative.
pub open spec fn spec_parking_spots(len: nat) -> nat {
    let q = len / (PARKING_SPOT_LENGTH as nat);
    if q >= 3 {
        (q - 2) as nat
    } else {
        0
    }
}

/// A road segment is broken down into individual lanes, which have a
/// LaneType. Lanes are built once with the network and immutable afterward.
pub struct Lane {
    pub id: LaneID,
    pub parent: RoadID,
    pub lane_type: LaneType,
    pub lane_center_pts: Polyline,
    /// Width in centimeters.
    pub width: u64,
    pub src_i: IntersectionID,
    pub dst_i: IntersectionID,
    /// Meaningless order.
    pub bus_stops: Vec<BusStopID>,
    /// {Cars, bikes} trying to start or end here might not be able to reach
    /// most lanes in the graph, because this is near a border.
    pub driving_blackhole: bool,
    pub biking_blackhole: bool,
}

impl Lane {
    pub open spec fn wf(self) -> bool {
        &&& self.lane_center_pts.wf()
        &&& self.width <= MAX_WIDTH
        &&& self.src_i != self.dst_i
    }

    /// Decide well-formedness at run time, for callers assembling lanes.
    pub fn check_wf(&self) -> (r: bool)
        ensures
            r == self.wf(),
    {
        self.lane_center_pts.check_wf() && self.width <= MAX_WIDTH && !(self.src_i == self.dst_i)
    }

    pub fn first_pt(&self) -> (r: Pt)
        requires
            self.wf(),
        ensures
            r == self.lane_center_pts.pts@[0],
    {
        self.lane_center_pts.first_pt()
    }

    pub fn last_pt(&self) -> (r: Pt)
        requires
            self.wf(),
        ensures
            r == self.lane_center_pts.pts@.last(),
    {
        self.lane_center_pts.last_pt()
    }

    pub fn first_line(&self) -> (r: Line)
        requires
            self.wf(),
        ensures
            r == (Line { p1: self.lane_center_pts.pts@[0], p2: self.lane_center_pts.pts@[1] }),
    {
        Line { p1: self.lane_center_pts.pts[0], p2: self.lane_center_pts.pts[1] }
    }

    pub fn last_line(&self) -> (r: Line)
        requires
            self.wf(),
        ensures
            r == (Line {
                p1: self.lane_center_pts.pts@[self.lane_center_pts.pts@.len() - 2],
                p2: self.lane_center_pts.pts@.last(),
            }),
    {
        let n = self.lane_center_pts.pts.len();
        Line { p1: self.lane_center_pts.pts[n - 2], p2: self.lane_center_pts.pts[n - 1] }
    }

    /// The end of this lane meeting the given intersection, which must be
    /// one of the lane's two endpoints.
    pub fn endpoint(&self, i: IntersectionID) -> (r: Pt)
        requires
            self.wf(),
            i == self.src_i || i == self.dst_i,
        ensures
            r == if i == self.src_i {
                self.lane_center_pts.pts@[0]
            } else {
                self.lane_center_pts.pts@.last()
            },
    {
        if i == self.src_i {
            self.first_pt()
        } else {
            self.last_pt()
        }
    }

    /// The last segment of the lane before the given intersection, oriented
    /// so that `p2` is the endpoint meeting it.
    pub fn end_line(&self, i: IntersectionID) -> (r: Line)
        requires
            self.wf(),
            i == self.src_i || i == self.dst_i,
        ensures
            i == self.src_i ==> r == (Line {
                p1: self.lane_center_pts.pts@[1],
                p2: self.lane_center_pts.pts@[0],
            }),
            i != self.src_i ==> r == (Line {
                p1: self.lane_center_pts.pts@[self.lane_center_pts.pts@.len() - 2],
                p2: self.lane_center_pts.pts@.last(),
            }),
    {
        if i == self.src_i {
            let l = self.first_line();
            Line { p1: l.p2, p2: l.p1 }
        } else {
            self.last_line()
        }
    }

    /// Distance along the centerline at which the point appears as a vertex,
    /// or `None` when it is not a vertex of this lane.
    pub fn dist_along_of_point(&self, pt: Pt) -> (r: Option<u64>)
        requires
            self.wf(),
        ensures
            first_index(self.lane_center_pts.pts@, pt) >= 0 ==> (r matches Some(d)
                && d == spec_polyline_len(
                self.lane_center_pts.pts@.take(first_index(self.lane_center_pts.pts@, pt) + 1),
            )),
            first_index(self.lane_center_pts.pts@, pt) < 0 ==> r is None,
    {
        let pts = &self.lane_center_pts.pts;
        let ghost s = pts@;
        let mut total: u64 = 0;
        let mut k: usize = 0;
        while k < pts.len()
            invariant
                0 <= k <= s.len() <= 10_000,
                s == pts@,
                s == self.lane_center_pts.pts@,
                self.wf(),
                total == spec_polyline_len(s.take(k as int)),
                total <= k * 60_000_000,
                forall|m: int| 0 <= m < k ==> s[m] != pt,
            decreases s.len() - k,
        {
            proof {
                assert(s == self.lane_center_pts.pts@);
                assert(self.lane_center_pts.wf());
                assert(crate::geometry::all_valid(s));
                assert forall|j: int| 0 <= j < s.len() implies (#[trigger] s[j]).in_range() by {
                    assert(s[j].valid());
                }
            }
            if k > 0 {
                let d = crate::geometry::dist(pts[k - 1], pts[k]);
                proof {
                    assert(s.take(k as int + 1).drop_last() =~= s.take(k as int));
                    assert(s.take(k as int + 1)[k - 1] == s[k - 1]);
                    assert(s.take(k as int + 1)[k as int] == s[k as int]);
                }
                total = total + d;
            } else {
                proof {
                    assert(s.take(1).len() == 1);
                    assert(spec_polyline_len(s.take(1)) == 0);
                }
            }
            if pts[k] == pt {
                proof {
                    crate::geometry::lemma_first_index_char(s, pt, k as int);
                }
                return Some(total);
            }
            k = k + 1;
        }
        proof {
            crate::geometry::lemma_first_index_absent(s, pt);
        }
        None
    }

    /// Total length of the lane, in centimeters.
    pub fn length(&self) -> (r: u64)
        requires
            self.wf(),
        ensures
            r == self.lane_center_pts.spec_len(),
            r <= 600_000_000_000u64,
    {
        self.lane_center_pts.length()
    }

    /// Both endpoints; lanes never loop back to one intersection.
    pub fn intersections(&self) -> (r: Vec<IntersectionID>)
        ensures
            r@ =~= seq![self.src_i, self.dst_i],
    {
        let mut r: Vec<IntersectionID> = Vec::new();
        r.push(self.src_i);
        r.push(self.dst_i);
        r
    }

    /// How many cars can park on this parking lane: no spots next to the
    /// intersections at either end.
    pub fn number_parking_spots(&self) -> (r: usize)
        requires
            self.wf(),
            self.lane_type is Parking,
        ensures
            r as nat == spec_parking_spots(self.lane_center_pts.spec_len()),
    {
        let len = self.length();
        let q = len / PARKING_SPOT_LENGTH;
        if q >= 3 {
            (q - 2) as usize
        } else {
            0
        }
    }

    pub fn is_driving(&self) -> (r: bool)
        ensures
            r == (self.lane_type is Driving),
    {
        self.lane_type == LaneType::Driving
    }

    pub fn is_biking(&self) -> (r: bool)
        ensures
            r == (self.lane_type is Biking),
    {
        self.lane_type == LaneType::Biking
    }

    pub fn is_bus(&self) -> (r: bool)
        ensures
            r == (self.lane_type is Bus),
    {
        self.lane_type == LaneType::Bus
    }

    pub fn is_walkable(&self) -> (r: bool)
        ensures
            r == (self.lane_type is Sidewalk || self.lane_type is Shoulder),
    {
        self.lane_type == LaneType::Sidewalk || self.lane_type == LaneType::Shoulder
    }

    pub fn is_sidewalk(&self) -> (r: bool)
        ensures
            r == (self.lane_type is Sidewalk),
    {
        self.lane_type == LaneType::Sidewalk
    }

    pub fn is_shoulder(&self) -> (r: bool)
        ensures
            r == (self.lane_type is Shoulder),
    {
        self.lane_type == LaneType::Shoulder
    }

    pub fn is_parking(&self) -> (r: bool)
        ensures
            r == (self.lane_type is Parking),
    {
        self.lane_type == LaneType::Parking
    }

    pub fn is_light_rail(&self) -> (r: bool)
        ensures
            r == (self.lane_type is LightRail),
    {
        self.lane_type == LaneType::LightRail
    }
}

/// Parking capacity never decreases as the lane gets longer.
pub proof fn lemma_parking_spots_monotonic(len1: nat, len2: nat)
    requires
        len1 <= len2,
    ensures
        spec_parking_spots(len1) <= spec_parking_spots(len2),
{
    vstd::arithmetic::div_mod::lemma_div_is_ordered(
        len1 as int,
        len2 as int,
        PARKING_SPOT_LENGTH as int,
    );
}

/// A lane no longer than two spot lengths parks nothing: both would-be
/// spots are reserved for the intersection ends.
pub proof fn lemma_parking_spots_short_lane(len: nat)
    requires
        len <= 2 * PARKING_SPOT_LENGTH,
    ensures
        spec_parking_spots(len) == 0,
{
    vstd::arithmetic::div_mod::lemma_div_is_ordered(
        len as int,
        2 * PARKING_SPOT_LENGTH as int,
        PARKING_SPOT_LENGTH as int,
    );
    assert(1600int / 800int == 2);
    assert(2 * PARKING_SPOT_LENGTH as int == 1600);
}

} // verus!
