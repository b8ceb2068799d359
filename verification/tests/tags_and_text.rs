use street_sim::lane::{LaneID, LaneType};
use street_sim::roadmap::{Direction, IntersectionID, Road, RoadID, Tags};
use street_sim::text::{split_on, str_eq};

fn tags(pairs: Vec<(&str, &str)>) -> Tags {
    Tags {
        entries: pairs
            .into_iter()
            .map(|(k, v)| (k.to_string(), v.to_string()))
            .collect(),
    }
}

#[test]
fn split_separates_on_the_separator() {
    let r = split_on("through|left|right", '|');
    assert_eq!(r, vec!["through", "left", "right"]);
    assert_eq!(split_on("", '|'), vec![""]);
    assert_eq!(split_on("a||b", '|'), vec!["a", "", "b"]);
    assert_eq!(split_on("left;", ';'), vec!["left", ""]);
    assert_eq!(split_on("plain", '|'), vec!["plain"]);
}

#[test]
fn string_equality_is_by_characters() {
    assert!(str_eq("left", "left"));
    assert!(!str_eq("left", "lef"));
    assert!(!str_eq("left", "Left"));
    assert!(str_eq("", ""));
}

#[test]
fn tags_first_entry_wins() {
    let t = tags(vec![("highway", "residential"), ("highway", "service"), ("name", "Elm")]);
    assert_eq!(t.get("highway"), Some(&"residential".to_string()));
    assert_eq!(t.get("name"), Some(&"Elm".to_string()));
    assert_eq!(t.get("surface"), None);
    assert!(t.contains_key("name"));
    assert!(!t.contains_key("oneway"));
}

#[test]
fn road_children_and_direction() {
    let road = Road {
        id: RoadID(0),
        src_i: IntersectionID(0),
        dst_i: IntersectionID(1),
        osm_tags: tags(vec![]),
        lanes_ltr: vec![
            (LaneID(0), Direction::Back, LaneType::Driving),
            (LaneID(1), Direction::Back, LaneType::Parking),
            (LaneID(2), Direction::Fwd, LaneType::Driving),
            (LaneID(3), Direction::Fwd, LaneType::Bus),
            (LaneID(4), Direction::Fwd, LaneType::Sidewalk),
        ],
    };
    assert_eq!(road.dir(LaneID(0)), Direction::Back);
    assert_eq!(road.dir(LaneID(3)), Direction::Fwd);
    let fwd = road.children(Direction::Fwd);
    assert_eq!(
        fwd,
        vec![
            (LaneID(2), LaneType::Driving),
            (LaneID(3), LaneType::Bus),
            (LaneID(4), LaneType::Sidewalk),
        ],
    );
    let back = road.children(Direction::Back);
    assert_eq!(back.len(), 2);
    assert!(!road.is_footway());

    let footway = Road {
        lanes_ltr: vec![(LaneID(0), Direction::Fwd, LaneType::Sidewalk)],
        osm_tags: tags(vec![]),
        ..road
    };
    assert!(footway.is_footway());
}
