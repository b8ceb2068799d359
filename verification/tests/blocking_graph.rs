use street_sim::blocking::{AgentID, ArrowColor, BlockingGraph, DelayCause, RootCause};
use street_sim::geometry::{Polygon, Pt};
use street_sim::roadmap::{Intersection, IntersectionID, MapModel};

fn car(n: usize) -> AgentID {
    AgentID::Car(n)
}

fn graph_of(entries: Vec<(AgentID, u64, DelayCause)>) -> BlockingGraph {
    BlockingGraph { entries }
}

#[test]
fn three_agent_cycle_reports_cycle() {
    // A waits on B, B waits on C, C waits on A: the trace must end, and
    // report the cycle rather than looping.
    let g = graph_of(vec![
        (car(1), 10, DelayCause::Agent(car(2))),
        (car(2), 20, DelayCause::Agent(car(3))),
        (car(3), 30, DelayCause::Agent(car(1))),
    ]);
    let (path, reason) = g.trace_root_cause(car(1));
    assert_eq!(path, vec![car(1), car(2), car(3)]);
    assert_eq!(reason, RootCause::Cycle(car(1)));
}

#[test]
fn chain_to_intersection_reports_it_in_two_hops() {
    // A -> B -> intersection 7: the reason is the intersection and the
    // walk records two hops.
    let g = graph_of(vec![
        (car(1), 10, DelayCause::Agent(car(2))),
        (car(2), 20, DelayCause::Intersection(IntersectionID(7))),
    ]);
    let (path, reason) = g.trace_root_cause(car(1));
    assert_eq!(path.len(), 2);
    assert_eq!(path, vec![car(1), car(2)]);
    assert_eq!(reason, RootCause::Intersection(IntersectionID(7)));
}

#[test]
fn missing_target_reports_unblocked_agent() {
    // B has no recorded delay: it appears to be moving, and is itself the
    // root cause reported.
    let g = graph_of(vec![(car(1), 10, DelayCause::Agent(car(2)))]);
    let (path, reason) = g.trace_root_cause(car(1));
    assert_eq!(path, vec![car(1), car(2)]);
    assert_eq!(reason, RootCause::Unblocked(car(2)));
}

#[test]
fn start_without_entry_is_its_own_cause() {
    let g = graph_of(vec![]);
    let (path, reason) = g.trace_root_cause(car(9));
    assert_eq!(path, vec![car(9)]);
    assert_eq!(reason, RootCause::Unblocked(car(9)));
}

#[test]
fn self_block_is_a_cycle() {
    let g = graph_of(vec![(car(4), 5, DelayCause::Agent(car(4)))]);
    let (path, reason) = g.trace_root_cause(car(4));
    assert_eq!(path, vec![car(4)]);
    assert_eq!(reason, RootCause::Cycle(car(4)));
}

#[test]
fn build_keeps_only_active_agents() {
    // Agent 3 has no position at this tick, so its entry is dropped; the
    // duplicate entry for agent 1 is dropped too.
    let positions = vec![
        (car(1), Pt { x: 0, y: 0 }),
        (car(2), Pt { x: 100, y: 0 }),
    ];
    let causes = vec![
        (car(1), 10, DelayCause::Agent(car(2))),
        (car(3), 30, DelayCause::Agent(car(1))),
        (car(1), 99, DelayCause::Intersection(IntersectionID(0))),
        (car(2), 20, DelayCause::Intersection(IntersectionID(1))),
    ];
    let g = BlockingGraph::build(&positions, &causes);
    assert_eq!(g.entries.len(), 2);
    assert_eq!(g.get(car(1)), Some((10, DelayCause::Agent(car(2)))));
    assert_eq!(g.get(car(2)), Some((20, DelayCause::Intersection(IntersectionID(1)))));
    assert_eq!(g.get(car(3)), None);
}

#[test]
fn snapshots_are_deterministic() {
    // Stepping the same toy engine twice from the same seed gives
    // bit-identical blocking graphs after the same number of ticks.
    let run = |seed: u64, ticks: u32| -> Vec<(AgentID, u64, DelayCause)> {
        let mut state = seed;
        let mut next = move || {
            state = state.wrapping_mul(6364136223846793005).wrapping_add(1442695040888963407);
            state >> 33
        };
        let mut positions = Vec::new();
        let mut causes = Vec::new();
        for _ in 0..ticks {
            positions.clear();
            causes.clear();
            for a in 0..5usize {
                let x = (next() % 1_000) as i64;
                let y = (next() % 1_000) as i64;
                positions.push((car(a), Pt { x, y }));
                let blocker = (next() % 6) as usize;
                if blocker < 5 && blocker != a {
                    causes.push((car(a), next() % 100, DelayCause::Agent(car(blocker))));
                } else {
                    causes.push((
                        car(a),
                        next() % 100,
                        DelayCause::Intersection(IntersectionID(blocker)),
                    ));
                }
            }
        }
        BlockingGraph::build(&positions, &causes).entries
    };
    let a = run(42, 100);
    let b = run(42, 100);
    assert_eq!(a, b);
    assert_eq!(a.len(), 5);
}

fn square_intersection(cx: i64, cy: i64) -> Intersection {
    let raw = vec![
        Pt { x: cx - 200, y: cy - 200 },
        Pt { x: cx + 200, y: cy - 200 },
        Pt { x: cx + 200, y: cy + 200 },
        Pt { x: cx - 200, y: cy + 200 },
    ];
    Intersection {
        id: IntersectionID(0),
        polygon: Polygon::new(&raw).unwrap(),
        roads: Vec::new(),
    }
}

#[test]
fn arrows_point_at_blockers() {
    let map = MapModel {
        lanes: Vec::new(),
        roads: Vec::new(),
        intersections: vec![square_intersection(1_000, 2_000)],
    };
    let positions = vec![
        (car(1), Pt { x: 10, y: 20 }),
        (car(2), Pt { x: 500, y: 600 }),
        (car(3), Pt { x: 0, y: 0 }),
    ];
    let g = graph_of(vec![
        (car(1), 10, DelayCause::Agent(car(2))),
        (car(3), 5, DelayCause::Intersection(IntersectionID(0))),
    ]);
    let a1 = g.arrow_for(&map, &positions, car(1)).unwrap();
    assert_eq!(a1.from, Pt { x: 10, y: 20 });
    assert_eq!(a1.to, Pt { x: 500, y: 600 });
    assert_eq!(a1.color, ArrowColor::Red);

    // The intersection arrow lands on the polygon's corner average.
    let a3 = g.arrow_for(&map, &positions, car(3)).unwrap();
    assert_eq!(a3.to, Pt { x: 1_000, y: 2_000 });
    assert_eq!(a3.color, ArrowColor::Blue);

    // No entry: nothing to draw.
    assert!(g.arrow_for(&map, &positions, car(2)).is_none());

    // A whole path of hops yields one arrow per resolvable hop.
    let (path, _) = g.trace_root_cause(car(1));
    let arrows = g.trace_arrows(&map, &positions, &path);
    assert_eq!(arrows.len(), 1);
    assert_eq!(arrows[0], a1);
}

#[test]
fn overview_draws_one_arrow_per_blocked_agent() {
    let map = MapModel {
        lanes: Vec::new(),
        roads: Vec::new(),
        intersections: vec![square_intersection(1_000, 2_000)],
    };
    let positions = vec![
        (car(1), Pt { x: 10, y: 20 }),
        (car(2), Pt { x: 500, y: 600 }),
        (car(3), Pt { x: 0, y: 0 }),
    ];
    let g = graph_of(vec![
        (car(1), 10, DelayCause::Agent(car(2))),
        (car(3), 5, DelayCause::Intersection(IntersectionID(0))),
    ]);
    // Agent 2 waits on nothing, so only two arrows come back.
    let arrows = g.arrows_for_all(&map, &positions);
    assert_eq!(arrows.len(), 2);
    assert_eq!(arrows[0].color, ArrowColor::Red);
    assert_eq!(arrows[1].color, ArrowColor::Blue);
    assert_eq!(arrows[1].from, Pt { x: 0, y: 0 });
}

#[test]
fn arrow_skips_gone_blocker() {
    let map = MapModel { lanes: Vec::new(), roads: Vec::new(), intersections: Vec::new() };
    let positions = vec![(car(1), Pt { x: 10, y: 20 })];
    let g = graph_of(vec![(car(1), 10, DelayCause::Agent(car(99)))]);
    assert!(g.arrow_for(&map, &positions, car(1)).is_none());
}
