use street_sim::geometry::{Polygon, Polyline, Pt};
use street_sim::lane::{Lane, LaneID, LaneType};
use street_sim::roadmap::{
    Direction, Intersection, IntersectionID, MapModel, Road, RoadID, Tags,
};

/// A ring of `n` one-lane roads around the corners of a regular polygon,
/// the shape used to exercise the block tracer: road `j` runs from
/// intersection `j` to intersection `j + 1`.
fn ring_map(corners: Vec<Pt>) -> MapModel {
    let n = corners.len();
    let mut lanes = Vec::new();
    let mut roads = Vec::new();
    let mut intersections = Vec::new();
    for j in 0..n {
        let next = (j + 1) % n;
        let prev = (j + n - 1) % n;
        lanes.push(Lane {
            id: LaneID(j),
            parent: RoadID(j),
            lane_type: LaneType::Driving,
            lane_center_pts: Polyline { pts: vec![corners[j], corners[next]] },
            width: 350,
            src_i: IntersectionID(j),
            dst_i: IntersectionID(next),
            bus_stops: Vec::new(),
            driving_blackhole: false,
            biking_blackhole: false,
        });
        roads.push(Road {
            id: RoadID(j),
            src_i: IntersectionID(j),
            dst_i: IntersectionID(next),
            osm_tags: Tags { entries: Vec::new() },
            lanes_ltr: vec![(LaneID(j), Direction::Fwd, LaneType::Driving)],
        });
        let c = corners[j];
        let raw = vec![
            Pt { x: c.x - 200, y: c.y - 200 },
            Pt { x: c.x + 200, y: c.y - 200 },
            Pt { x: c.x + 200, y: c.y + 200 },
            Pt { x: c.x - 200, y: c.y + 200 },
        ];
        intersections.push(Intersection {
            id: IntersectionID(j),
            polygon: Polygon::new(&raw).unwrap(),
            roads: vec![RoadID(prev), RoadID(j)],
        });
    }
    MapModel { lanes, roads, intersections }
}

/// Twice the signed area of a closed ring, by the shoelace formula.
fn area2(poly: &Polygon) -> i128 {
    let pts = &poly.pts;
    let mut total: i128 = 0;
    for k in 0..pts.len() - 1 {
        let a = pts[k];
        let b = pts[k + 1];
        total += (a.x as i128) * (b.y as i128) - (b.x as i128) * (a.y as i128);
    }
    total
}

#[test]
fn square_block_visits_three_other_lanes() {
    // Four roads in a ring: the walk from any outer lane passes the three
    // other lanes before closing, and encloses a nonempty interior.
    let map = ring_map(vec![
        Pt { x: 0, y: 0 },
        Pt { x: 10_000, y: 0 },
        Pt { x: 10_000, y: 10_000 },
        Pt { x: 0, y: 10_000 },
    ]);
    assert!(map.check_wf());
    for s in 0..4 {
        let (poly, visited) = map.lanes[s].trace_around_block(&map).expect("walk should close");
        assert_eq!(visited.len(), 3, "start {}", s);
        assert_eq!(visited[0], LaneID(s));
        assert!(!visited.contains(&LaneID((s + 3) % 4)));
        assert!(poly.pts.len() >= 4);
        assert_eq!(poly.pts.first(), poly.pts.last());
        assert_ne!(area2(&poly), 0);
    }
}

#[test]
fn hexagonal_block_visits_five_other_lanes() {
    let map = ring_map(vec![
        Pt { x: 0, y: 0 },
        Pt { x: 8_000, y: -4_000 },
        Pt { x: 16_000, y: 0 },
        Pt { x: 16_000, y: 9_000 },
        Pt { x: 8_000, y: 13_000 },
        Pt { x: 0, y: 9_000 },
    ]);
    assert!(map.check_wf());
    let (_, visited) = map.lanes[0].trace_around_block(&map).expect("walk should close");
    assert_eq!(visited.len(), 5);
}

#[test]
fn footways_are_skipped_when_walking() {
    // Replace one ring road by a footway and hang the walk's road list on
    // it: the tracer cannot place the current road there and reports
    // failure instead of panicking or looping.
    let mut map = ring_map(vec![
        Pt { x: 0, y: 0 },
        Pt { x: 10_000, y: 0 },
        Pt { x: 10_000, y: 10_000 },
        Pt { x: 0, y: 10_000 },
    ]);
    // Turn road 0 itself into a footway; the walk starting there can no
    // longer find it among the retained roads.
    map.roads[0].lanes_ltr = vec![(LaneID(0), Direction::Fwd, LaneType::Sidewalk)];
    map.lanes[0].lane_type = LaneType::Sidewalk;
    assert!(map.lanes[0].trace_around_block(&map).is_none());
}

#[test]
fn revisit_before_closing_reports_failure() {
    // Rewire two intersections' road orderings so the walk from lane 0
    // funnels into a loop between lanes 1 and 2 that never returns to the
    // start: the visited check must end the walk with a failure instead of
    // looping forever.
    let mut map = ring_map(vec![
        Pt { x: 0, y: 0 },
        Pt { x: 10_000, y: 0 },
        Pt { x: 10_000, y: 10_000 },
        Pt { x: 0, y: 10_000 },
    ]);
    map.intersections[1].roads = vec![RoadID(2), RoadID(0), RoadID(1)];
    map.intersections[3].roads = vec![RoadID(1), RoadID(2)];
    assert!(map.lanes[0].trace_around_block(&map).is_none());
}

#[test]
fn degenerate_trails_make_no_polygon() {
    // Two distinct points close into only two corners: no ring.
    assert!(Polygon::new(&vec![Pt { x: 0, y: 0 }, Pt { x: 100, y: 0 }]).is_none());
    assert!(Polygon::new(&Vec::new()).is_none());
    // Three distinct corners are enough.
    let p = Polygon::new(&vec![Pt { x: 0, y: 0 }, Pt { x: 100, y: 0 }, Pt { x: 0, y: 100 }])
        .unwrap();
    assert_eq!(p.pts.len(), 4);
    assert_eq!(p.pts.first(), p.pts.last());
}

#[test]
fn malformed_networks_fail_the_wf_check() {
    let good = ring_map(vec![
        Pt { x: 0, y: 0 },
        Pt { x: 10_000, y: 0 },
        Pt { x: 10_000, y: 10_000 },
        Pt { x: 0, y: 10_000 },
    ]);
    assert!(good.check_wf());

    // A lane pointing at a road that does not list it.
    let mut broken = ring_map(vec![
        Pt { x: 0, y: 0 },
        Pt { x: 10_000, y: 0 },
        Pt { x: 10_000, y: 10_000 },
        Pt { x: 0, y: 10_000 },
    ]);
    broken.lanes[1].parent = RoadID(2);
    assert!(!broken.check_wf());

    // A lane looping back to one intersection.
    let mut looped = ring_map(vec![
        Pt { x: 0, y: 0 },
        Pt { x: 10_000, y: 0 },
        Pt { x: 10_000, y: 10_000 },
        Pt { x: 0, y: 10_000 },
    ]);
    looped.lanes[0].dst_i = looped.lanes[0].src_i;
    assert!(!looped.check_wf());

    // An intersection listing the same road twice.
    let mut doubled = ring_map(vec![
        Pt { x: 0, y: 0 },
        Pt { x: 10_000, y: 0 },
        Pt { x: 10_000, y: 10_000 },
        Pt { x: 0, y: 10_000 },
    ]);
    doubled.intersections[0].roads = vec![RoadID(3), RoadID(3)];
    assert!(!doubled.check_wf());
}

#[test]
fn directed_parent_follows_the_lane() {
    let map = ring_map(vec![
        Pt { x: 0, y: 0 },
        Pt { x: 10_000, y: 0 },
        Pt { x: 10_000, y: 10_000 },
        Pt { x: 0, y: 10_000 },
    ]);
    let d = map.lanes[2].get_directed_parent(&map);
    assert_eq!(d.id, RoadID(2));
    assert_eq!(d.dir, Direction::Fwd);
}
