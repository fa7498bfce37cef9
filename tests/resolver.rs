use pickup_geo::geo::{convert, get_value, Element, Node, Pickup, Point, ResolveError, Resolver};
use pickup_geo::scrape;

fn pickup(street: &str, date: &str) -> scrape::Pickup {
    scrape::Pickup { street: street.to_string(), date: date.to_string() }
}

fn way(name: &str, refs: &[i64]) -> Element {
    Element::Way {
        tags: vec![
            ("highway".to_string(), "residential".to_string()),
            ("name".to_string(), name.to_string()),
        ],
        refs: refs.to_vec(),
    }
}

fn node(id: i64, lat: i64, lon: i64, in_region: bool) -> Element {
    Element::Node { id, node: Node { point: Point { lat, lon }, in_region } }
}

fn pt(lat: i64, lon: i64) -> Point {
    Point { lat, lon }
}

fn find<'a>(out: &'a [Pickup], street: &str) -> &'a Pickup {
    out.iter().find(|p| p.street == street).expect("record present")
}

#[test]
fn unnamed_street_gets_empty_record() {
    let elements = vec![way("Other Road", &[1]), node(1, 49_000_000_000, 8_400_000_000, true)];
    let out = convert(vec![pickup("Kaiserstraße", "03.01.2022")], &elements).unwrap();
    assert_eq!(out.len(), 1);
    assert_eq!(out[0].street, "Kaiserstraße");
    assert_eq!(out[0].date, "03.01.2022");
    assert!(out[0].segments.is_empty());
}

#[test]
fn two_ways_give_two_segments_in_order() {
    let elements = vec![
        node(3, 30, 31, true),
        way("MAIN", &[3, 1, 2]),
        node(1, 10, 11, false),
        way("OTHER", &[1]),
        way("MAIN", &[4, 5]),
        node(2, 20, 21, false),
        node(4, 40, 41, true),
        node(5, 50, 51, true),
    ];
    let out = convert(vec![pickup("MAIN", "d")], &elements).unwrap();
    assert_eq!(out[0].segments, vec![vec![pt(30, 31), pt(10, 11), pt(20, 21)], vec![pt(40, 41), pt(50, 51)]]);
}

#[test]
fn far_first_point_drops_segment() {
    let elements = vec![
        way("MAIN", &[1, 2]),
        way("MAIN", &[3, 4]),
        node(1, 1, 1, false),
        node(2, 2, 2, true),
        node(3, 3, 3, true),
        node(4, 4, 4, true),
    ];
    let out = convert(vec![pickup("MAIN", "d")], &elements).unwrap();
    assert_eq!(out[0].segments, vec![vec![pt(3, 3), pt(4, 4)]]);
}

#[test]
fn near_first_point_keeps_whole_segment() {
    let elements = vec![
        way("MAIN", &[1, 2, 3]),
        node(1, 1, 1, true),
        node(2, 2, 2, false),
        node(3, 3, 3, false),
    ];
    let out = convert(vec![pickup("MAIN", "d")], &elements).unwrap();
    assert_eq!(out[0].segments, vec![vec![pt(1, 1), pt(2, 2), pt(3, 3)]]);
}

#[test]
fn empty_way_is_dropped() {
    let elements = vec![way("MAIN", &[]), way("MAIN", &[1]), node(1, 1, 1, true)];
    let out = convert(vec![pickup("MAIN", "d")], &elements).unwrap();
    assert_eq!(out[0].segments, vec![vec![pt(1, 1)]]);
}

#[test]
fn matching_ignores_case() {
    let elements = vec![way("HAUPTSTRASSE", &[1]), way("hauptstraße", &[2]), node(1, 1, 1, true), node(2, 2, 2, true)];
    let out = convert(vec![pickup("Hauptstraße", "d")], &elements).unwrap();
    assert_eq!(out[0].street, "Hauptstraße");
    assert_eq!(out[0].segments, vec![vec![pt(1, 1)], vec![pt(2, 2)]]);
}

#[test]
fn upper_case_tag_matches_mixed_case_street() {
    let elements = vec![way("KAISERALLEE", &[7]), node(7, 5, 6, true)];
    let out = convert(vec![pickup("Kaiserallee", "d")], &elements).unwrap();
    assert_eq!(out[0].segments, vec![vec![pt(5, 6)]]);
}

#[test]
fn round_trip_through_own_coordinates() {
    let elements = vec![
        way("MAIN", &[10, 11, 12]),
        node(10, 1, 2, true),
        node(11, 3, 4, false),
        node(12, 5, 6, true),
    ];
    let first = convert(vec![pickup("MAIN", "d")], &elements).unwrap();
    let points = first[0].segments[0].clone();
    let mut again = vec![way("MAIN", &(0..points.len() as i64).collect::<Vec<_>>())];
    for (i, p) in points.iter().enumerate() {
        again.push(Element::Node { id: i as i64, node: Node { point: *p, in_region: true } });
    }
    let second = convert(vec![pickup("MAIN", "d")], &again).unwrap();
    assert_eq!(second[0].segments, first[0].segments);
}

#[test]
fn missing_point_fails() {
    let elements = vec![way("MAIN", &[1, 99]), node(1, 1, 1, true)];
    match convert(vec![pickup("MAIN", "d")], &elements) {
        Err(ResolveError::MissingPoint(id)) => assert_eq!(id, 99),
        Ok(_) => panic!("expected a missing point"),
    }
}

#[test]
fn missing_point_in_filtered_segment_still_fails() {
    let elements = vec![way("MAIN", &[1, 42]), node(1, 1, 1, false)];
    assert!(matches!(convert(vec![pickup("MAIN", "d")], &elements), Err(ResolveError::MissingPoint(42))));
}

#[test]
fn unmatched_way_with_missing_point_is_ignored() {
    let elements = vec![way("ELSEWHERE", &[5]), way("MAIN", &[1]), node(1, 1, 1, true)];
    let out = convert(vec![pickup("MAIN", "d")], &elements).unwrap();
    assert_eq!(out[0].segments, vec![vec![pt(1, 1)]]);
}

#[test]
fn way_without_name_is_ignored() {
    let elements = vec![
        Element::Way { tags: vec![("ref".to_string(), "MAIN".to_string())], refs: vec![1] },
        node(1, 1, 1, true),
    ];
    let out = convert(vec![pickup("MAIN", "d")], &elements).unwrap();
    assert!(out[0].segments.is_empty());
}

#[test]
fn later_point_replaces_earlier() {
    let elements = vec![way("MAIN", &[1]), node(1, 1, 1, false), node(1, 8, 9, true)];
    let out = convert(vec![pickup("MAIN", "d")], &elements).unwrap();
    assert_eq!(out[0].segments, vec![vec![pt(8, 9)]]);
}

#[test]
fn duplicate_name_keeps_last_pickup_in_first_place() {
    let pickups = vec![pickup("Main", "first"), pickup("Side", "side"), pickup("MAIN", "second")];
    let elements = vec![way("main", &[1]), node(1, 1, 1, true)];
    let out = convert(pickups, &elements).unwrap();
    assert_eq!(out.len(), 2);
    assert_eq!(out[0].street, "MAIN");
    assert_eq!(out[0].date, "second");
    assert_eq!(out[0].segments, vec![vec![pt(1, 1)]]);
    assert_eq!(find(&out, "Side").date, "side");
    assert!(out[1].segments.is_empty());
}

#[test]
fn resolver_streams_elements() {
    let mut r = Resolver::new(vec![pickup("A", "1"), pickup("B", "2")]);
    r.add_point(2, Node { point: pt(2, 2), in_region: true });
    r.add_way(&vec![("name".to_string(), "b".to_string())], vec![2, 1]);
    r.add_way(&vec![("name".to_string(), "a".to_string())], vec![1]);
    r.add_point(1, Node { point: pt(1, 1), in_region: false });
    let out = r.finish().unwrap();
    assert_eq!(out.len(), 2);
    assert!(out[0].segments.is_empty());
    assert_eq!(out[1].segments, vec![vec![pt(2, 2), pt(1, 1)]]);
}

#[test]
fn get_value_takes_first_matching_key() {
    let tags = vec![
        ("highway".to_string(), "x".to_string()),
        ("name".to_string(), "One".to_string()),
        ("name".to_string(), "Two".to_string()),
    ];
    assert_eq!(get_value(&tags, &"name".to_string()), Some("One".to_string()));
    assert_eq!(get_value(&tags, &"surface".to_string()), None);
    assert_eq!(get_value(&vec![], &"name".to_string()), None);
}
