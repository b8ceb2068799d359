use street_sim::geometry::{Polyline, Pt};
use street_sim::lane::{Lane, LaneID, LaneType, PARKING_LOT_SPOT_LENGTH, PARKING_SPOT_LENGTH};
use street_sim::roadmap::{IntersectionID, RoadID};

fn lane_of_length(len_cm: i64, lane_type: LaneType) -> Lane {
    Lane {
        id: LaneID(0),
        parent: RoadID(0),
        lane_type,
        lane_center_pts: Polyline { pts: vec![Pt { x: 0, y: 0 }, Pt { x: len_cm, y: 0 }] },
        width: 250,
        src_i: IntersectionID(0),
        dst_i: IntersectionID(1),
        bus_stops: Vec::new(),
        driving_blackhole: false,
        biking_blackhole: false,
    }
}

#[test]
fn twenty_five_units_park_one_car() {
    // 25.0 length units at an 8.0-unit spot: floor(25 / 8) - 2 = 1.
    let lane = lane_of_length(2_500, LaneType::Parking);
    assert_eq!(lane.length(), 2_500);
    assert_eq!(lane.number_parking_spots(), 1);
}

#[test]
fn spot_length_constants() {
    assert_eq!(PARKING_SPOT_LENGTH, 800);
    // Parking lots pack spots at 0.8 of the on-street length.
    assert_eq!(PARKING_LOT_SPOT_LENGTH * 10, PARKING_SPOT_LENGTH * 8);
}

#[test]
fn short_lanes_park_nothing() {
    // Anything up to two spot lengths is reserved for the intersections.
    for len in [1, 799, 800, 1_599, 1_600] {
        let lane = lane_of_length(len, LaneType::Parking);
        assert_eq!(lane.number_parking_spots(), 0, "length {}", len);
    }
    // Three spot lengths leave one usable spot.
    assert_eq!(lane_of_length(2_400, LaneType::Parking).number_parking_spots(), 1);
}

#[test]
fn parking_spots_monotonic_samples() {
    let mut last = 0;
    for len in [100, 1_600, 2_400, 2_500, 3_200, 8_000, 80_000] {
        let spots = lane_of_length(len, LaneType::Parking).number_parking_spots();
        assert!(spots >= last, "length {} gave {} after {}", len, spots, last);
        last = spots;
    }
    assert_eq!(last, 98);
}

#[test]
fn lane_type_predicates() {
    assert!(LaneType::Driving.is_for_moving_vehicles());
    assert!(LaneType::Biking.is_for_moving_vehicles());
    assert!(LaneType::Bus.is_for_moving_vehicles());
    assert!(LaneType::LightRail.is_for_moving_vehicles());
    assert!(!LaneType::Parking.is_for_moving_vehicles());
    assert!(!LaneType::Sidewalk.is_for_moving_vehicles());
    assert!(!LaneType::Shoulder.is_for_moving_vehicles());
    assert!(!LaneType::SharedLeftTurn.is_for_moving_vehicles());
    assert!(!LaneType::Construction.is_for_moving_vehicles());

    assert!(LaneType::Sidewalk.supports_any_movement());
    assert!(LaneType::Shoulder.supports_any_movement());
    assert!(!LaneType::Parking.supports_any_movement());
    assert!(!LaneType::SharedLeftTurn.supports_any_movement());
    assert!(!LaneType::Construction.supports_any_movement());
}

#[test]
fn lane_type_names() {
    assert_eq!(LaneType::Driving.describe(), "a general-purpose driving lane");
    assert_eq!(LaneType::Construction.describe(), "a lane that's closed for construction");
    assert_eq!(LaneType::Driving.short_name(), "driving lane");
    assert_eq!(LaneType::SharedLeftTurn.short_name(), "left-turn lane");
    assert_eq!(LaneType::LightRail.short_name(), "light rail track");
}

#[test]
fn lane_shape_queries() {
    let lane = lane_of_length(2_500, LaneType::Driving);
    assert_eq!(lane.first_pt(), Pt { x: 0, y: 0 });
    assert_eq!(lane.last_pt(), Pt { x: 2_500, y: 0 });
    assert!(lane.is_driving());
    assert!(!lane.is_parking());
    assert!(!lane.is_biking());
    assert!(!lane.is_bus());
    assert!(!lane.is_walkable());
    assert!(!lane.is_sidewalk());
    assert!(!lane.is_shoulder());
    assert!(!lane.is_light_rail());

    let ends = lane.intersections();
    assert_eq!(ends, vec![IntersectionID(0), IntersectionID(1)]);

    // The endpoint at each intersection, and the end line pointing at it.
    assert_eq!(lane.endpoint(IntersectionID(0)), Pt { x: 0, y: 0 });
    assert_eq!(lane.endpoint(IntersectionID(1)), Pt { x: 2_500, y: 0 });
    let el = lane.end_line(IntersectionID(0));
    assert_eq!(el.p2, Pt { x: 0, y: 0 });
    let el2 = lane.end_line(IntersectionID(1));
    assert_eq!(el2.p2, Pt { x: 2_500, y: 0 });
}

#[test]
fn dist_along_matches_vertices() {
    let lane = Lane {
        lane_center_pts: Polyline {
            pts: vec![Pt { x: 0, y: 0 }, Pt { x: 300, y: 0 }, Pt { x: 300, y: 400 }],
        },
        ..lane_of_length(100, LaneType::Driving)
    };
    assert_eq!(lane.dist_along_of_point(Pt { x: 0, y: 0 }), Some(0));
    assert_eq!(lane.dist_along_of_point(Pt { x: 300, y: 0 }), Some(300));
    assert_eq!(lane.dist_along_of_point(Pt { x: 300, y: 400 }), Some(700));
    assert_eq!(lane.dist_along_of_point(Pt { x: 5, y: 5 }), None);
    assert_eq!(lane.length(), 700);
}

#[test]
fn walkable_types() {
    let sidewalk = lane_of_length(1_000, LaneType::Sidewalk);
    assert!(sidewalk.is_walkable());
    assert!(sidewalk.is_sidewalk());
    let shoulder = lane_of_length(1_000, LaneType::Shoulder);
    assert!(shoulder.is_walkable());
    assert!(shoulder.is_shoulder());
}
