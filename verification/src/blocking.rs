//! The blocking graph: which waiting agent is delayed by which other agent
//! or intersection, and tracing chains of waits back to a root cause.

use vstd::prelude::*;

use crate::geometry::Pt;
use crate::roadmap::{IntersectionID, MapModel};

verus! {

/// A simulated moving entity, valid for the snapshot tick only.
#[derive(Clone, Copy, Debug, PartialEq, Eq, Structural, Hash)]
pub enum AgentID {
    Car(usize),
    Pedestrian(usize),
}

/// What an agent is waiting on: another agent, or an intersection's
/// right-of-way.
#[derive(Clone, Copy, Debug, PartialEq, Eq, Structural)]
pub enum DelayCause {
    Agent(AgentID),
    Intersection(IntersectionID),
}

/// Accumulated wait time of one entry, in tenths of a second.
pub type WaitTime = u64;

/// The first entry of the graph keyed by `id`, if any.
pub open spec fn spec_lookup(s: Seq<(AgentID, WaitTime, DelayCause)>, id: AgentID) -> Option<
    (WaitTime, DelayCause),
>
    decreases s.len(),
{
    if s.len() == 0 {
        None
    } else if s[0].0 == id {
        Some((s[0].1, s[0].2))
    } else {
        spec_lookup(s.drop_first(), id)
    }
}

/// The first recorded position of `id`, if any.
pub open spec fn spec_pos_lookup(s: Seq<(AgentID, Pt)>, id: AgentID) -> Option<Pt>
    decreases s.len(),
{
    if s.len() == 0 {
        None
    } else if s[0].0 == id {
        Some(s[0].1)
    } else {
        spec_pos_lookup(s.drop_first(), id)
    }
}

/// Find the first recorded position of an agent.
pub fn lookup_position(positions: &Vec<(AgentID, Pt)>, id: AgentID) -> (r: Option<Pt>)
    ensures
        r == spec_pos_lookup(positions@, id),
{
    proof {
        assert(positions@.skip(0) =~= positions@);
    }
    let mut k: usize = 0;
    while k < positions.len()
        invariant
            0 <= k <= positions@.len(),
            spec_pos_lookup(positions@, id) == spec_pos_lookup(positions@.skip(k as int), id),
        decreases positions@.len() - k,
    {
        proof {
            assert(positions@.skip(k as int)[0] == positions@[k as int]);
            assert(positions@.skip(k as int).drop_first() =~= positions@.skip(k + 1));
        }
        if positions[k].0 == id {
            return Some(positions[k].1);
        }
        k = k + 1;
    }
    proof {
        assert(positions@.skip(positions@.len() as int).len() == 0);
    }
    None
}

/// What `build` keeps: the first cause entry of each agent that has a
/// recorded position. Entries for agents that are gone, or duplicate
/// entries for one agent, are dropped.
pub open spec fn spec_build(
    positions: Seq<(AgentID, Pt)>,
    causes: Seq<(AgentID, WaitTime, DelayCause)>,
) -> Seq<(AgentID, WaitTime, DelayCause)>
    decreases causes.len(),
{
    if causes.len() == 0 {
        Seq::empty()
    } else {
        let pre = spec_build(positions, causes.drop_last());
        let e = causes.last();
        if spec_pos_lookup(positions, e.0) is Some && spec_lookup(pre, e.0) is None {
            pre.push(e)
        } else {
            pre
        }
    }
}

/// A snapshot of who waits on what at one tick: each waiting agent maps to
/// its accumulated wait and its immediate cause. Rebuilt fresh per query,
/// never mutated incrementally.
pub struct BlockingGraph {
    pub entries: Vec<(AgentID, WaitTime, DelayCause)>,
}

impl BlockingGraph {
    pub open spec fn spec_get(self, id: AgentID) -> Option<(WaitTime, DelayCause)> {
        spec_lookup(self.entries@, id)
    }

    /// Snapshot the current delays: keep the first cause of every agent
    /// that is active (has a position) at this tick.
    pub fn build(
        positions: &Vec<(AgentID, Pt)>,
        causes: &Vec<(AgentID, WaitTime, DelayCause)>,
    ) -> (r: BlockingGraph)
        ensures
            r.entries@ == spec_build(positions@, causes@),
    {
        let mut entries: Vec<(AgentID, WaitTime, DelayCause)> = Vec::new();
        let mut k: usize = 0;
        while k < causes.len()
            invariant
                0 <= k <= causes@.len(),
                entries@ == spec_build(positions@, causes@.take(k as int)),
            decreases causes@.len() - k,
        {
            proof {
                assert(causes@.take(k + 1).drop_last() =~= causes@.take(k as int));
                assert(causes@.take(k + 1).last() == causes@[k as int]);
            }
            let e = causes[k];
            let has_pos = match lookup_position(positions, e.0) {
                Some(_) => true,
                None => false,
            };
            if has_pos {
                let fresh = {
                    let g = BlockingGraph { entries };
                    let dup = g.get(e.0);
                    entries = g.entries;
                    match dup {
                        Some(_) => false,
                        None => true,
                    }
                };
                if fresh {
                    entries.push(e);
                }
            }
            k = k + 1;
        }
        proof {
            assert(causes@.take(causes@.len() as int) =~= causes@);
        }
        BlockingGraph { entries }
    }

    /// The wait and cause recorded for an agent, if any.
    pub fn get(&self, id: AgentID) -> (r: Option<(WaitTime, DelayCause)>)
        ensures
            r == self.spec_get(id),
    {
        proof {
            assert(self.entries@.skip(0) =~= self.entries@);
        }
        let mut k: usize = 0;
        while k < self.entries.len()
            invariant
                0 <= k <= self.entries@.len(),
                spec_lookup(self.entries@, id) == spec_lookup(self.entries@.skip(k as int), id),
            decreases self.entries@.len() - k,
        {
            proof {
                assert(self.entries@.skip(k as int)[0] == self.entries@[k as int]);
                assert(self.entries@.skip(k as int).drop_first() =~= self.entries@.skip(k + 1));
            }
            if self.entries[k].0 == id {
                return Some((self.entries[k].1, self.entries[k].2));
            }
            k = k + 1;
        }
        proof {
            assert(self.entries@.skip(self.entries@.len() as int).len() == 0);
        }
        None
    }
}

/// Every key the snapshot keeps belongs to an agent with a position.
pub proof fn lemma_build_keys_active(
    positions: Seq<(AgentID, Pt)>,
    causes: Seq<(AgentID, WaitTime, DelayCause)>,
    id: AgentID,
)
    requires
        spec_lookup(spec_build(positions, causes), id) is Some,
    ensures
        spec_pos_lookup(positions, id) is Some,
    decreases causes.len(),
{
    if causes.len() > 0 {
        let pre = spec_build(positions, causes.drop_last());
        let e = causes.last();
        if spec_pos_lookup(positions, e.0) is Some && spec_lookup(pre, e.0) is None {
            lemma_lookup_push(pre, e, id);
            if id != e.0 {
                lemma_build_keys_active(positions, causes.drop_last(), id);
            }
        } else {
            lemma_build_keys_active(positions, causes.drop_last(), id);
        }
    }
}

/// Looking a key up after appending one entry: the appended entry only
/// answers for its own key, and only when the key was absent.
pub proof fn lemma_lookup_push(
    s: Seq<(AgentID, WaitTime, DelayCause)>,
    e: (AgentID, WaitTime, DelayCause),
    id: AgentID,
)
    ensures
        spec_lookup(s, id) is Some ==> spec_lookup(s.push(e), id) == spec_lookup(s, id),
        spec_lookup(s, id) is None && e.0 == id ==> spec_lookup(s.push(e), id) == Some(
            (e.1, e.2),
        ),
        spec_lookup(s, id) is None && e.0 != id ==> spec_lookup(s.push(e), id) is None,
    decreases s.len(),
{
    if s.len() == 0 {
        assert(s.push(e)[0] == e);
        assert(s.push(e).drop_first() =~= Seq::<(AgentID, WaitTime, DelayCause)>::empty());
        assert(spec_lookup(Seq::<(AgentID, WaitTime, DelayCause)>::empty(), id) is None);
    } else {
        assert(s.push(e)[0] == s[0]);
        assert(s.push(e).drop_first() =~= s.drop_first().push(e));
        lemma_lookup_push(s.drop_first(), e, id);
    }
}

/// Where a chain of waits ends: a cycle of mutually blocked agents, an
/// intersection holding right-of-way, or an agent with no recorded delay
/// (apparently moving; possibly a snapshot staleness artifact, not an
/// error).
#[derive(Clone, Copy, Debug, PartialEq, Eq, Structural)]
pub enum RootCause {
    Cycle(AgentID),
    Intersection(IntersectionID),
    Unblocked(AgentID),
}

/// Whether an agent occurs in a list.
pub fn contains_agent(v: &Vec<AgentID>, x: AgentID) -> (r: bool)
    ensures
        r == v@.contains(x),
{
    let mut k: usize = 0;
    while k < v.len()
        invariant
            0 <= k <= v@.len(),
            forall|m: int| 0 <= m < k ==> v@[m] != x,
        decreases v@.len() - k,
    {
        if v[k] == x {
            return true;
        }
        k = k + 1;
    }
    false
}

/// A key with an entry occurs among the entry keys.
proof fn lemma_lookup_in_keys(s: Seq<(AgentID, WaitTime, DelayCause)>, id: AgentID)
    requires
        spec_lookup(s, id) is Some,
    ensures
        s.map_values(|e: (AgentID, WaitTime, DelayCause)| e.0).contains(id),
    decreases s.len(),
{
    let keys = s.map_values(|e: (AgentID, WaitTime, DelayCause)| e.0);
    if s[0].0 == id {
        assert(keys[0] == id);
    } else {
        lemma_lookup_in_keys(s.drop_first(), id);
        let rest = s.drop_first().map_values(|e: (AgentID, WaitTime, DelayCause)| e.0);
        let j = choose|j: int| 0 <= j < rest.len() && rest[j] == id;
        assert(keys[j + 1] == id);
    }
}

/// No more distinct agents can hold entries than there are entries.
proof fn lemma_distinct_keys_bound(
    ids: Seq<AgentID>,
    entries: Seq<(AgentID, WaitTime, DelayCause)>,
)
    requires
        ids.no_duplicates(),
        forall|k: int| 0 <= k < ids.len() ==> spec_lookup(entries, #[trigger] ids[k]) is Some,
    ensures
        ids.len() <= entries.len(),
{
    broadcast use vstd::seq_lib::group_seq_lib_default;

    let keys = entries.map_values(|e: (AgentID, WaitTime, DelayCause)| e.0);
    assert forall|x: AgentID| ids.to_set().contains(x) implies keys.to_set().contains(x) by {
        assert(ids.contains(x));
        let k = choose|k: int| 0 <= k < ids.len() && ids[k] == x;
        lemma_lookup_in_keys(entries, x);
        assert(keys.contains(x));
    }
    ids.unique_seq_to_set();
    keys.lemma_cardinality_of_set();
    vstd::set_lib::lemma_len_subset(ids.to_set(), keys.to_set());
}

impl BlockingGraph {
    /// Figure out why an agent is ultimately blocked: follow the chain of
    /// agent-blocks-agent edges from `start` until it reaches an agent seen
    /// before (a cycle), an intersection, or an agent with no recorded
    /// delay. Returns the agents visited, in order, and the terminal
    /// reason; the visited set bounds the walk, so it ends within one hop
    /// per recorded agent.
    pub fn trace_root_cause(&self, start: AgentID) -> (r: (Vec<AgentID>, RootCause))
        ensures
            r.0@.len() >= 1,
            r.0@[0] == start,
            r.0@.no_duplicates(),
            forall|k: int|
                0 <= k < r.0@.len() - 1 ==> ((#[trigger] self.spec_get(r.0@[k])) matches Some(
                e) && e.1 == DelayCause::Agent(r.0@[k + 1])),
            r.1 matches RootCause::Cycle(a) ==> (self.spec_get(r.0@.last()) matches Some(e)
                && e.1 == DelayCause::Agent(a) && r.0@.contains(a)),
            r.1 matches RootCause::Intersection(i) ==> (self.spec_get(r.0@.last()) matches Some(
                e,
            ) && e.1 == DelayCause::Intersection(i)),
            r.1 matches RootCause::Unblocked(a) ==> (a == r.0@.last() && self.spec_get(a)
                is None),
            r.0@.len() <= self.entries@.len() + 1,
    {
        let mut path: Vec<AgentID> = Vec::new();
        let mut current = start;
        loop
            invariant
                path@.len() == 0 ==> current == start,
                path@.len() > 0 ==> path@[0] == start,
                path@.no_duplicates(),
                path@.len() <= self.entries@.len(),
                forall|k: int|
                    0 <= k < path@.len() - 1 ==> ((#[trigger] self.spec_get(path@[k])) matches Some(
                        e,
                    ) && e.1 == DelayCause::Agent(path@[k + 1])),
                forall|k: int|
                    0 <= k < path@.len() ==> spec_lookup(self.entries@, #[trigger] path@[k])
                        is Some,
                path@.len() > 0 ==> (self.spec_get(path@.last()) matches Some(e) && e.1
                    == DelayCause::Agent(current)),
            decreases self.entries@.len() - path@.len(),
        {
            if contains_agent(&path, current) {
                return (path, RootCause::Cycle(current));
            }
            let ghost old_path = path@;
            path.push(current);
            proof {
                assert forall|i: int, j: int|
                    0 <= i < j < path@.len() implies path@[i] != path@[j] by {
                    if j < path@.len() - 1 {
                        assert(old_path[i] == path@[i] && old_path[j] == path@[j]);
                    } else {
                        assert(path@[j] == current);
                        assert(old_path[i] == path@[i]);
                        assert(!old_path.contains(current));
                    }
                }
            }
            match self.get(current) {
                Some((_wait, DelayCause::Agent(a))) => {
                    proof {
                        lemma_distinct_keys_bound(path@, self.entries@);
                        assert(forall|k: int|
                            0 <= k < path@.len() - 1 ==> path@[k] == old_path[k]);
                    }
                    current = a;
                },
                Some((_wait, DelayCause::Intersection(i))) => {
                    return (path, RootCause::Intersection(i));
                },
                None => {
                    return (path, RootCause::Unblocked(current));
                },
            }
        }
    }
}

/// How a diagnostic arrow is tinted: red for blocked-by-agent, blue for
/// waiting on an intersection.
#[derive(Clone, Copy, Debug, PartialEq, Eq, Structural)]
pub enum ArrowColor {
    Red,
    Blue,
}

/// A directional arrow from a blocked agent to what blocks it, for an
/// external viewer to render.
#[derive(Clone, Copy, Debug, PartialEq, Eq, Structural)]
pub struct Arrow {
    pub from: Pt,
    pub to: Pt,
    pub color: ArrowColor,
}

/// The arrow drawn for one agent: toward the agent blocking it when that
/// agent still has a position, or toward the center of the intersection it
/// waits on. No entry, or a blocking agent that is gone, draws nothing.
pub open spec fn spec_arrow_for(
    map: MapModel,
    g: Seq<(AgentID, WaitTime, DelayCause)>,
    positions: Seq<(AgentID, Pt)>,
    id: AgentID,
) -> Option<Arrow> {
    match spec_lookup(g, id) {
        None => None,
        Some(e) => match e.1 {
            DelayCause::Agent(a) => match spec_pos_lookup(positions, a) {
                None => None,
                Some(pa) => Some(
                    Arrow {
                        from: spec_pos_lookup(positions, id)->Some_0,
                        to: pa,
                        color: ArrowColor::Red,
                    },
                ),
            },
            DelayCause::Intersection(i) => Some(
                Arrow {
                    from: spec_pos_lookup(positions, id)->Some_0,
                    to: map.intersections@[i.0 as int].polygon.spec_center(),
                    color: ArrowColor::Blue,
                },
            ),
        },
    }
}

/// Every agent with an entry has a recorded position, and every
/// intersection an entry points at exists in the map.
pub open spec fn graph_resolvable(
    g: Seq<(AgentID, WaitTime, DelayCause)>,
    positions: Seq<(AgentID, Pt)>,
    map: MapModel,
) -> bool {
    &&& forall|a: AgentID| spec_lookup(g, a) is Some ==> spec_pos_lookup(positions, a) is Some
    &&& forall|k: int|
        0 <= k < g.len() ==> ((#[trigger] g[k].2) matches DelayCause::Intersection(i) ==> i.0
            < map.intersections@.len())
}

/// A successful lookup returns one of the entries.
proof fn lemma_lookup_is_entry(s: Seq<(AgentID, WaitTime, DelayCause)>, id: AgentID)
    requires
        spec_lookup(s, id) is Some,
    ensures
        exists|k: int|
            0 <= k < s.len() && s[k] == (id, spec_lookup(s, id)->Some_0.0, spec_lookup(
                s,
                id,
            )->Some_0.1),
    decreases s.len(),
{
    if s[0].0 == id {
        assert(s[0] == (id, spec_lookup(s, id)->Some_0.0, spec_lookup(s, id)->Some_0.1));
    } else {
        lemma_lookup_is_entry(s.drop_first(), id);
        let k = choose|k: int|
            0 <= k < s.drop_first().len() && s.drop_first()[k] == (
                id,
                spec_lookup(s.drop_first(), id)->Some_0.0,
                spec_lookup(s.drop_first(), id)->Some_0.1,
            );
        assert(s[k + 1] == s.drop_first()[k]);
    }
}

impl BlockingGraph {
    /// The arrow to draw for one agent, if its cause resolves to somewhere.
    pub fn arrow_for(&self, map: &MapModel, positions: &Vec<(AgentID, Pt)>, id: AgentID) -> (r:
        Option<Arrow>)
        requires
            map.wf(),
            graph_resolvable(self.entries@, positions@, *map),
        ensures
            r == spec_arrow_for(*map, self.entries@, positions@, id),
    {
        let (_wait, cause) = match self.get(id) {
            Some(e) => e,
            None => {
                return None;
            },
        };
        let from = match lookup_position(positions, id) {
            Some(p) => p,
            None => {
                proof {
                    assert(false);
                }
                Pt { x: 0, y: 0 }
            },
        };
        match cause {
            DelayCause::Agent(a) => {
                match lookup_position(positions, a) {
                    Some(pa) => Some(Arrow { from, to: pa, color: ArrowColor::Red }),
                    None => None,
                }
            },
            DelayCause::Intersection(i) => {
                proof {
                    lemma_lookup_is_entry(self.entries@, id);
                    let k = choose|k: int|
                        0 <= k < self.entries@.len() && self.entries@[k] == (
                            id,
                            spec_lookup(self.entries@, id)->Some_0.0,
                            spec_lookup(self.entries@, id)->Some_0.1,
                        );
                    assert(self.entries@[k].2 == DelayCause::Intersection(i));
                    assert(map.intersection_ok(i.0 as int));
                }
                let inter = map.get_i(i);
                let to = inter.polygon.center();
                Some(Arrow { from, to, color: ArrowColor::Blue })
            },
        }
    }

    /// The arrows for every hop of a root-cause path, in hop order; hops
    /// whose cause cannot be placed draw nothing.
    pub fn trace_arrows(&self, map: &MapModel, positions: &Vec<(AgentID, Pt)>, path: &Vec<
        AgentID,
    >) -> (r: Vec<Arrow>)
        requires
            map.wf(),
            graph_resolvable(self.entries@, positions@, *map),
        ensures
            r@ == spec_trace_arrows(*map, self.entries@, positions@, path@),
    {
        let mut r: Vec<Arrow> = Vec::new();
        let mut k: usize = 0;
        while k < path.len()
            invariant
                0 <= k <= path@.len(),
                map.wf(),
                graph_resolvable(self.entries@, positions@, *map),
                r@ == spec_trace_arrows(*map, self.entries@, positions@, path@.take(k as int)),
            decreases path@.len() - k,
        {
            proof {
                assert(path@.take(k + 1).drop_last() =~= path@.take(k as int));
                assert(path@.take(k + 1).last() == path@[k as int]);
            }
            match self.arrow_for(map, positions, path[k]) {
                Some(a) => {
                    r.push(a);
                },
                None => {},
            }
            k = k + 1;
        }
        proof {
            assert(path@.take(path@.len() as int) =~= path@);
        }
        r
    }

    /// One arrow per currently placed agent whose cause resolves: the
    /// overview a diagnostic viewer draws before any agent is singled out.
    pub fn arrows_for_all(&self, map: &MapModel, positions: &Vec<(AgentID, Pt)>) -> (r: Vec<
        Arrow,
    >)
        requires
            map.wf(),
            graph_resolvable(self.entries@, positions@, *map),
        ensures
            r@ == spec_all_arrows(*map, self.entries@, positions@),
    {
        let mut r: Vec<Arrow> = Vec::new();
        let mut k: usize = 0;
        while k < positions.len()
            invariant
                0 <= k <= positions@.len(),
                map.wf(),
                graph_resolvable(self.entries@, positions@, *map),
                r@ == spec_arrows_upto(*map, self.entries@, positions@, k as int),
            decreases positions@.len() - k,
        {
            match self.arrow_for(map, positions, positions[k].0) {
                Some(a) => {
                    r.push(a);
                },
                None => {},
            }
            k = k + 1;
        }
        r
    }
}

/// The arrows for the first `k` placed agents, in position order.
pub open spec fn spec_arrows_upto(
    map: MapModel,
    g: Seq<(AgentID, WaitTime, DelayCause)>,
    positions: Seq<(AgentID, Pt)>,
    k: int,
) -> Seq<Arrow>
    decreases k,
{
    if k <= 0 {
        Seq::empty()
    } else {
        let pre = spec_arrows_upto(map, g, positions, k - 1);
        match spec_arrow_for(map, g, positions, positions[k - 1].0) {
            Some(a) => pre.push(a),
            None => pre,
        }
    }
}

/// The arrows for every agent with a recorded position, in position order.
pub open spec fn spec_all_arrows(
    map: MapModel,
    g: Seq<(AgentID, WaitTime, DelayCause)>,
    positions: Seq<(AgentID, Pt)>,
) -> Seq<Arrow> {
    spec_arrows_upto(map, g, positions, positions.len() as int)
}

/// The arrows of a path's hops, in order.
pub open spec fn spec_trace_arrows(
    map: MapModel,
    g: Seq<(AgentID, WaitTime, DelayCause)>,
    positions: Seq<(AgentID, Pt)>,
    path: Seq<AgentID>,
) -> Seq<Arrow>
    decreases path.len(),
{
    if path.len() == 0 {
        Seq::empty()
    } else {
        let pre = spec_trace_arrows(map, g, positions, path.drop_last());
        match spec_arrow_for(map, g, positions, path.last()) {
            Some(a) => pre.push(a),
            None => pre,
        }
    }
}

/// Building a snapshot is a function of its inputs alone: two snapshots
/// taken from equal positions and equal causes are identical. With a
/// deterministic stepping engine, stepping a network twice from the same
/// seed therefore yields identical blocking graphs.
pub proof fn lemma_build_deterministic(
    g1: BlockingGraph,
    g2: BlockingGraph,
    positions: Seq<(AgentID, Pt)>,
    causes: Seq<(AgentID, WaitTime, DelayCause)>,
)
    requires
        g1.entries@ == spec_build(positions, causes),
        g2.entries@ == spec_build(positions, causes),
    ensures
        g1.entries@ == g2.entries@,
        forall|id: AgentID| g1.spec_get(id) == g2.spec_get(id),
{
}

} // verus!
