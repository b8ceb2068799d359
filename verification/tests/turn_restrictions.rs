use street_sim::lane::{Lane, LaneID, LaneType};
use street_sim::geometry::{Polyline, Pt};
use street_sim::roadmap::{Direction, IntersectionID, Road, RoadID, Tags};
use street_sim::turns::TurnType;

fn straight_pts(len_cm: i64) -> Vec<Pt> {
    vec![Pt { x: 0, y: 0 }, Pt { x: len_cm, y: 0 }]
}

fn mk_lane(id: usize, lane_type: LaneType) -> Lane {
    Lane {
        id: LaneID(id),
        parent: RoadID(0),
        lane_type,
        lane_center_pts: Polyline { pts: straight_pts(10_000) },
        width: 350,
        src_i: IntersectionID(0),
        dst_i: IntersectionID(1),
        bus_stops: Vec::new(),
        driving_blackhole: false,
        biking_blackhole: false,
    }
}

fn mk_road(tags: Vec<(&str, &str)>, lanes: Vec<(usize, Direction, LaneType)>) -> Road {
    Road {
        id: RoadID(0),
        src_i: IntersectionID(0),
        dst_i: IntersectionID(1),
        osm_tags: Tags {
            entries: tags
                .into_iter()
                .map(|(k, v)| (k.to_string(), v.to_string()))
                .collect(),
        },
        lanes_ltr: lanes
            .into_iter()
            .map(|(id, d, t)| (LaneID(id), d, t))
            .collect(),
    }
}

#[test]
fn through_left_on_second_lane_gives_left() {
    // Two forward driving lanes tagged "through|left": the second (left
    // from the driver's view is the queried one here) lane gets {Left}.
    let road = mk_road(
        vec![("abst:endpt_fwd", "yes"), ("turn:lanes:forward", "through|left")],
        vec![
            (0, Direction::Fwd, LaneType::Driving),
            (1, Direction::Fwd, LaneType::Driving),
        ],
    );
    let lane = mk_lane(1, LaneType::Driving);
    let set = lane.get_turn_restrictions(&road).expect("restriction expected");
    assert!(set.contains(TurnType::Left));
    assert!(!set.contains(TurnType::Straight));
    assert!(!set.contains(TurnType::Right));
    assert_eq!(set.count(), 1);
}

#[test]
fn first_lane_of_through_left_gets_straight() {
    let road = mk_road(
        vec![("abst:endpt_fwd", "yes"), ("turn:lanes:forward", "through|left")],
        vec![
            (0, Direction::Fwd, LaneType::Driving),
            (1, Direction::Fwd, LaneType::Driving),
        ],
    );
    let lane = mk_lane(0, LaneType::Driving);
    let set = lane.get_turn_restrictions(&road).unwrap();
    assert!(set.contains(TurnType::Straight));
    assert_eq!(set.count(), 1);
}

#[test]
fn non_driving_lane_has_no_restrictions() {
    let road = mk_road(
        vec![("abst:endpt_fwd", "yes"), ("turn:lanes:forward", "left")],
        vec![(0, Direction::Fwd, LaneType::Parking)],
    );
    let lane = mk_lane(0, LaneType::Parking);
    assert!(lane.get_turn_restrictions(&road).is_none());
}

#[test]
fn token_count_mismatch_is_not_applicable() {
    // Three tokens for two lanes: unreliable tag data, never fatal.
    let road = mk_road(
        vec![("abst:endpt_fwd", "yes"), ("turn:lanes:forward", "left|right|through")],
        vec![
            (0, Direction::Fwd, LaneType::Driving),
            (1, Direction::Fwd, LaneType::Driving),
        ],
    );
    let lane = mk_lane(0, LaneType::Driving);
    assert!(lane.get_turn_restrictions(&road).is_none());
}

#[test]
fn no_restriction_tokens_give_none() {
    for tok in ["no", "none", "yes", "psv", "bus", ""] {
        let road = mk_road(
            vec![("abst:endpt_fwd", "yes"), ("turn:lanes:forward", tok)],
            vec![(0, Direction::Fwd, LaneType::Driving)],
        );
        let lane = mk_lane(0, LaneType::Driving);
        assert!(lane.get_turn_restrictions(&road).is_none(), "token {:?}", tok);
    }
}

#[test]
fn unknown_tokens_never_block_all_turns() {
    // A matched token that maps to nothing must be reported as "not
    // applicable", never as an empty set that blocks every turn.
    let road = mk_road(
        vec![("abst:endpt_fwd", "yes"), ("turn:lanes:forward", "u_turn_only")],
        vec![(0, Direction::Fwd, LaneType::Driving)],
    );
    let lane = mk_lane(0, LaneType::Driving);
    assert!(lane.get_turn_restrictions(&road).is_none());
}

#[test]
fn derived_set_is_never_empty() {
    // Whenever a set comes back at all, it allows at least one turn.
    for tag in ["left", "right", "through", "slight_left", "merge_to_right", "reverse",
        "left;right", "zzz;left"] {
        let road = mk_road(
            vec![("abst:endpt_fwd", "yes"), ("turn:lanes:forward", tag)],
            vec![(0, Direction::Fwd, LaneType::Driving)],
        );
        let lane = mk_lane(0, LaneType::Driving);
        if let Some(set) = lane.get_turn_restrictions(&road) {
            assert!(set.count() > 0, "tag {:?}", tag);
        }
    }
}

#[test]
fn slight_variants_allow_both() {
    let road = mk_road(
        vec![("abst:endpt_fwd", "yes"), ("turn:lanes:forward", "slight_right")],
        vec![(0, Direction::Fwd, LaneType::Driving)],
    );
    let lane = mk_lane(0, LaneType::Driving);
    let set = lane.get_turn_restrictions(&road).unwrap();
    assert!(set.contains(TurnType::Straight));
    assert!(set.contains(TurnType::Right));
    assert_eq!(set.count(), 2);
}

#[test]
fn reverse_counts_as_left() {
    let road = mk_road(
        vec![("abst:endpt_fwd", "yes"), ("turn:lanes:forward", "reverse")],
        vec![(0, Direction::Fwd, LaneType::Driving)],
    );
    let lane = mk_lane(0, LaneType::Driving);
    let set = lane.get_turn_restrictions(&road).unwrap();
    assert!(set.contains(TurnType::Left));
    assert_eq!(set.count(), 1);
}

#[test]
fn semicolon_tokens_union() {
    let road = mk_road(
        vec![("abst:endpt_fwd", "yes"), ("turn:lanes:forward", "left;right")],
        vec![(0, Direction::Fwd, LaneType::Driving)],
    );
    let lane = mk_lane(0, LaneType::Driving);
    let set = lane.get_turn_restrictions(&road).unwrap();
    assert!(set.contains(TurnType::Left));
    assert!(set.contains(TurnType::Right));
    assert_eq!(set.count(), 2);
}

#[test]
fn backward_lane_uses_backward_key() {
    let road = mk_road(
        vec![("abst:endpt_back", "yes"), ("turn:lanes:backward", "right")],
        vec![
            (0, Direction::Fwd, LaneType::Driving),
            (1, Direction::Back, LaneType::Driving),
        ],
    );
    let lane = mk_lane(1, LaneType::Driving);
    let set = lane.get_turn_restrictions(&road).unwrap();
    assert!(set.contains(TurnType::Right));
}

#[test]
fn forward_falls_back_to_combined_key() {
    let road = mk_road(
        vec![("abst:endpt_fwd", "yes"), ("turn:lanes", "left")],
        vec![(0, Direction::Fwd, LaneType::Driving)],
    );
    let lane = mk_lane(0, LaneType::Driving);
    let set = lane.get_turn_restrictions(&road).unwrap();
    assert!(set.contains(TurnType::Left));
}

#[test]
fn no_endpoint_marker_means_no_tag_data() {
    let road = mk_road(
        vec![("turn:lanes:forward", "left")],
        vec![(0, Direction::Fwd, LaneType::Driving)],
    );
    let lane = mk_lane(0, LaneType::Driving);
    assert!(lane.get_turn_restrictions(&road).is_none());
}

#[test]
fn bus_lanes_count_toward_positions() {
    // A bus lane occupies a token slot even though only the driving lane
    // asks for restrictions.
    let road = mk_road(
        vec![("abst:endpt_fwd", "yes"), ("turn:lanes:forward", "through|right")],
        vec![
            (0, Direction::Fwd, LaneType::Driving),
            (1, Direction::Fwd, LaneType::Bus),
        ],
    );
    let lane = mk_lane(0, LaneType::Driving);
    let set = lane.get_turn_restrictions(&road).unwrap();
    assert!(set.contains(TurnType::Straight));
    assert_eq!(set.count(), 1);
}
