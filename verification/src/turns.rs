//! Deriving per-lane turn restrictions from turn-lane tags.

use vstd::prelude::*;

use crate::geometry::first_index;
use crate::lane::{Lane, LaneID, LaneType};
use crate::roadmap::{Direction, Road, spec_children, spec_lane_entry};
use crate::text::{spec_split, split_on, str_eq};

verus! {

/// The geometric class of a permitted movement through an intersection.
#[derive(Clone, Copy, Debug, PartialEq, Eq, Structural, Hash)]
pub enum TurnType {
    Straight,
    Left,
    Right,
}

/// A set of allowed turn types.
#[derive(Clone, Copy, Debug, PartialEq, Eq, Structural)]
pub struct TurnSet {
    pub straight: bool,
    pub left: bool,
    pub right: bool,
}

impl TurnSet {
    pub open spec fn spec_count(self) -> nat {
        (if self.straight {
            1nat
        } else {
            0nat
        }) + (if self.left {
            1nat
        } else {
            0nat
        }) + (if self.right {
            1nat
        } else {
            0nat
        })
    }

    pub open spec fn spec_contains(self, t: TurnType) -> bool {
        match t {
            TurnType::Straight => self.straight,
            TurnType::Left => self.left,
            TurnType::Right => self.right,
        }
    }

    pub open spec fn spec_union(self, o: TurnSet) -> TurnSet {
        TurnSet {
            straight: self.straight || o.straight,
            left: self.left || o.left,
            right: self.right || o.right,
        }
    }

    pub fn empty() -> (r: TurnSet)
        ensures
            r == (TurnSet { straight: false, left: false, right: false }),
    {
        TurnSet { straight: false, left: false, right: false }
    }

    pub fn union(self, o: TurnSet) -> (r: TurnSet)
        ensures
            r == self.spec_union(o),
    {
        TurnSet {
            straight: self.straight || o.straight,
            left: self.left || o.left,
            right: self.right || o.right,
        }
    }

    pub fn contains(self, t: TurnType) -> (r: bool)
        ensures
            r == self.spec_contains(t),
    {
        match t {
            TurnType::Straight => self.straight,
            TurnType::Left => self.left,
            TurnType::Right => self.right,
        }
    }

    pub fn count(self) -> (r: usize)
        ensures
            r as nat == self.spec_count(),
    {
        let mut r: usize = 0;
        if self.straight {
            r = r + 1;
        }
        if self.left {
            r = r + 1;
        }
        if self.right {
            r = r + 1;
        }
        r
    }

    pub fn is_empty(self) -> (r: bool)
        ensures
            r == (self.spec_count() == 0),
    {
        !self.straight && !self.left && !self.right
    }
}

/// The turn types one token of a turn-lane tag allows. The slight, merge
/// and sharp variants are ambiguous between going on and turning, so they
/// allow both; `reverse` shows up as a left turn because no explicit U-turn
/// type exists; an unrecognized token allows nothing.
pub open spec fn spec_token_turns(t: Seq<char>) -> TurnSet {
    if t == "left"@ || t == "left\\left"@ {
        TurnSet { straight: false, left: true, right: false }
    } else if t == "right"@ {
        TurnSet { straight: false, left: false, right: true }
    } else if t == "through"@ || t.len() == 0 {
        TurnSet { straight: true, left: false, right: false }
    } else if t == "slight_right"@ || t == "slight right"@ || t == "merge_to_right"@ || t
        == "sharp_right"@ {
        TurnSet { straight: true, left: false, right: true }
    } else if t == "slight_left"@ || t == "slight left"@ || t == "merge_to_left"@ || t
        == "sharp_left"@ {
        TurnSet { straight: true, left: true, right: false }
    } else if t == "reverse"@ {
        TurnSet { straight: false, left: true, right: false }
    } else {
        TurnSet { straight: false, left: false, right: false }
    }
}

/// The union of the turns allowed by every token in a `;`-joined list.
pub open spec fn spec_tokens_turns(parts: Seq<Seq<char>>) -> TurnSet
    decreases parts.len(),
{
    if parts.len() == 0 {
        TurnSet { straight: false, left: false, right: false }
    } else {
        spec_tokens_turns(parts.drop_last()).spec_union(spec_token_turns(parts.last()))
    }
}

/// Tokens that mean "no restriction recorded" rather than an allowed set.
pub open spec fn spec_is_unrestricted(t: Seq<char>) -> bool {
    t == "no"@ || t == "none"@ || t == "yes"@ || t == "psv"@ || t == "bus"@ || t.len() == 0
}

/// The ids of driving and bus lanes among a road side's children, in order.
pub open spec fn spec_driving_bus(s: Seq<(LaneID, LaneType)>) -> Seq<LaneID>
    decreases s.len(),
{
    if s.len() == 0 {
        Seq::empty()
    } else {
        let pre = spec_driving_bus(s.drop_last());
        if s.last().1 is Driving || s.last().1 is Bus {
            pre.push(s.last().0)
        } else {
            pre
        }
    }
}

/// Which turn-lane tag value applies to a lane running the given direction,
/// if any: the forward key (falling back to the combined key) when the road
/// marks its forward endpoint, the backward key when it marks its backward
/// endpoint.
pub open spec fn spec_turn_tag_value(road: Road, dir: Direction) -> Option<Seq<char>> {
    if dir is Fwd && road.osm_tags.spec_get("abst:endpt_fwd"@) is Some {
        if road.osm_tags.spec_get("turn:lanes:forward"@) is Some {
            road.osm_tags.spec_get("turn:lanes:forward"@)
        } else {
            road.osm_tags.spec_get("turn:lanes"@)
        }
    } else if dir is Back && road.osm_tags.spec_get("abst:endpt_back"@) is Some {
        road.osm_tags.spec_get("turn:lanes:backward"@)
    } else {
        None
    }
}

/// The turn restriction a road's tags record for one of its lanes:
/// `None` means no restriction recorded. A token list that maps to the
/// empty set also means no restriction: blocking every turn would make the
/// lane unusable, so an empty derived set is deliberately reported as "not
/// applicable" rather than "blocks all turns".
pub open spec fn spec_turn_restrictions(lane: Lane, road: Road) -> Option<TurnSet> {
    if !(lane.lane_type is Driving) {
        None
    } else {
        let dir = road.spec_dir(lane.id);
        match spec_turn_tag_value(road, dir) {
            None => None,
            Some(all) => {
                let parts = spec_split(all, '|');
                let lanes = spec_driving_bus(spec_children(road.lanes_ltr@, dir));
                if parts.len() != lanes.len() {
                    None
                } else {
                    let pos = first_index(lanes, lane.id);
                    if pos < 0 {
                        None
                    } else {
                        let part = parts[pos];
                        if spec_is_unrestricted(part) {
                            None
                        } else {
                            let set = spec_tokens_turns(spec_split(part, ';'));
                            if set.spec_count() == 0 {
                                None
                            } else {
                                Some(set)
                            }
                        }
                    }
                }
            },
        }
    }
}

/// The turns one token allows.
pub fn token_turns(t: &str) -> (r: TurnSet)
    ensures
        r == spec_token_turns(t@),
{
    if str_eq(t, "left") || str_eq(t, "left\\left") {
        TurnSet { straight: false, left: true, right: false }
    } else if str_eq(t, "right") {
        TurnSet { straight: false, left: false, right: true }
    } else if str_eq(t, "through") || t.unicode_len() == 0 {
        TurnSet { straight: true, left: false, right: false }
    } else if str_eq(t, "slight_right") || str_eq(t, "slight right") || str_eq(t, "merge_to_right")
        || str_eq(t, "sharp_right") {
        TurnSet { straight: true, left: false, right: true }
    } else if str_eq(t, "slight_left") || str_eq(t, "slight left") || str_eq(t, "merge_to_left")
        || str_eq(t, "sharp_left") {
        TurnSet { straight: true, left: true, right: false }
    } else if str_eq(t, "reverse") {
        TurnSet { straight: false, left: true, right: false }
    } else {
        TurnSet { straight: false, left: false, right: false }
    }
}

/// Find the position of a lane id in an ordered lane list.
fn find_lane(lanes: &Vec<LaneID>, x: LaneID) -> (r: Option<usize>)
    ensures
        r matches Some(k) ==> {
            &&& first_index(lanes@, x) == k as int
            &&& k < lanes@.len()
        },
        r is None ==> first_index(lanes@, x) == -1,
{
    let mut j: usize = 0;
    while j < lanes.len()
        invariant
            0 <= j <= lanes@.len(),
            forall|m: int| 0 <= m < j ==> lanes@[m] != x,
        decreases lanes@.len() - j,
    {
        if lanes[j] == x {
            proof {
                crate::geometry::lemma_first_index_char(lanes@, x, j as int);
            }
            return Some(j);
        }
        j = j + 1;
    }
    proof {
        crate::geometry::lemma_first_index_absent(lanes@, x);
    }
    None
}

impl Lane {
    /// The set of turn types this road's tags allow for this driving lane,
    /// or `None` when the lane is not a driving lane, no applicable tag
    /// exists, the token count does not line up with the lane count, or the
    /// matched token records no restriction. A derived set is never empty.
    pub fn get_turn_restrictions(&self, road: &Road) -> (r: Option<TurnSet>)
        requires
            self.lane_type is Driving ==> spec_lane_entry(road.lanes_ltr@, self.id) is Some,
        ensures
            r == spec_turn_restrictions(*self, *road),
            r matches Some(s) ==> s.spec_count() > 0,
    {
        if !self.is_driving() {
            return None;
        }
        let dir = road.dir(self.id);
        let all: &String = if dir == Direction::Fwd && road.osm_tags.contains_key(
            "abst:endpt_fwd",
        ) {
            match road.osm_tags.get("turn:lanes:forward") {
                Some(v) => v,
                None => match road.osm_tags.get("turn:lanes") {
                    Some(v) => v,
                    None => {
                        return None;
                    },
                },
            }
        } else if dir == Direction::Back && road.osm_tags.contains_key("abst:endpt_back") {
            match road.osm_tags.get("turn:lanes:backward") {
                Some(v) => v,
                None => {
                    return None;
                },
            }
        } else {
            return None;
        };
        let parts = split_on(all.as_str(), '|');
        let children = road.children(dir);
        let mut lanes: Vec<LaneID> = Vec::new();
        let mut k: usize = 0;
        while k < children.len()
            invariant
                0 <= k <= children@.len(),
                lanes@ == spec_driving_bus(children@.take(k as int)),
            decreases children@.len() - k,
        {
            proof {
                assert(children@.take(k + 1).drop_last() =~= children@.take(k as int));
                assert(children@.take(k + 1).last() == children@[k as int]);
            }
            let e = children[k];
            if e.1 == LaneType::Driving || e.1 == LaneType::Bus {
                lanes.push(e.0);
            }
            k = k + 1;
        }
        proof {
            assert(children@.take(children@.len() as int) =~= children@);
        }
        if parts.len() != lanes.len() {
            // The tag data does not line up with the road's lanes: treated
            // as unreliable, never fatal.
            return None;
        }
        let pos: usize = match find_lane(&lanes, self.id) {
            Some(p) => p,
            None => {
                return None;
            },
        };
        let part: &String = &parts[pos];
        proof {
            assert(parts@.map_values(|t: String| t@)[pos as int] == part@);
        }
        if str_eq(part.as_str(), "no") || str_eq(part.as_str(), "none") || str_eq(
            part.as_str(),
            "yes",
        ) || str_eq(part.as_str(), "psv") || str_eq(part.as_str(), "bus") || part.as_str().unicode_len()
            == 0 {
            return None;
        }
        let tokens = split_on(part.as_str(), ';');
        let ghost token_views = tokens@.map_values(|t: String| t@);
        let mut set = TurnSet::empty();
        let mut m: usize = 0;
        while m < tokens.len()
            invariant
                0 <= m <= tokens@.len(),
                token_views == tokens@.map_values(|t: String| t@),
                set == spec_tokens_turns(token_views.take(m as int)),
            decreases tokens@.len() - m,
        {
            proof {
                assert(token_views.take(m + 1).drop_last() =~= token_views.take(m as int));
                assert(token_views.take(m + 1).last() == token_views[m as int]);
                assert(token_views[m as int] == tokens@[m as int]@);
            }
            let t = token_turns(tokens[m].as_str());
            set = set.union(t);
            m = m + 1;
        }
        proof {
            assert(token_views.take(token_views.len() as int) =~= token_views);
        }
        if set.is_empty() {
            // Every token was unrecognized: report "no restriction" rather
            // than a set that blocks all turns.
            return None;
        }
        Some(set)
    }
}

} // verus!
