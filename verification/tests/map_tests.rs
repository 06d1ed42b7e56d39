use pixel_landmark_localizer::config::build_map;
use pixel_landmark_localizer::config::MapBuildError;
use pixel_landmark_localizer::config::MapSpecification;
use pixel_landmark_localizer::landmark::Image;
use pixel_landmark_localizer::landmark::Landmark;
use pixel_landmark_localizer::landmark::Rgba;
use pixel_landmark_localizer::map::LandmarkMap;
use pixel_landmark_localizer::util::Coordinate;
use pixel_landmark_localizer::util::Rect;

fn dummy_landmark(v: u8) -> Landmark {
    let img = Image::filled(
        1,
        1,
        Rgba {
            r: v,
            g: v,
            b: v,
            a: 255,
        },
    );
    Landmark::from_image(&img, 0)
}

#[test]
fn test_map_add_and_lookup() {
    let mut map = LandmarkMap::default();
    let a = map.add_landmark(dummy_landmark(1));
    let b = map.add_landmark(dummy_landmark(2));
    assert_eq!(a.to_index(), 0);
    assert_eq!(b.to_index(), 1);
    assert_eq!(map.landmark_ids(), vec![a, b]);

    let la = map.add_fixed(a, Coordinate { x: 5, y: 6 });
    let lb = map.add_fixed(b, Coordinate { x: -7, y: 8 });
    let la2 = map.add_fixed(a, Coordinate { x: 100, y: 100 });
    assert_eq!(la.id, a);
    assert_eq!(la.location, Coordinate { x: 5, y: 6 });
    assert_eq!(map.locations(), &[la, lb, la2]);
    assert_eq!(map.locations_by_landmark(a), vec![la, la2]);
    assert_eq!(map.locations_by_landmark(b), vec![lb]);
}

#[test]
fn test_landmarks_in_inclusive_bounds() {
    // landmarks_in returns exactly the placements whose coordinate satisfies
    // inclusive containment on both bounds of the rectangle.
    let mut map = LandmarkMap::default();
    let a = map.add_landmark(dummy_landmark(1));
    map.add_fixed(a, Coordinate { x: 0, y: 0 });
    map.add_fixed(a, Coordinate { x: 10, y: 5 });
    map.add_fixed(a, Coordinate { x: 11, y: 5 });
    map.add_fixed(a, Coordinate { x: 10, y: 6 });
    map.add_fixed(a, Coordinate { x: -1, y: 0 });
    map.add_fixed(a, Coordinate { x: 3, y: 3 });

    let rect = Rect {
        x: 0,
        y: 0,
        w: 10,
        h: 5,
    };
    let inside = map.landmarks_in(&rect);
    let inside_coords: Vec<Coordinate> = inside
        .iter()
        .map(|id| map.location(*id).location)
        .collect();
    assert_eq!(
        inside_coords,
        vec![
            Coordinate { x: 0, y: 0 },
            Coordinate { x: 10, y: 5 },
            Coordinate { x: 3, y: 3 },
        ]
    );
}

#[test]
fn test_map_name() {
    let mut map = LandmarkMap::default();
    assert!(map.name().is_none());
    map.set_name(Some(String::from("overworld")));
    assert_eq!(map.name(), Some(String::from("overworld")));
}

#[test]
fn test_build_map_resolves_names() {
    let doc = MapSpecification {
        name: Some(String::from("doc")),
        landmarks: vec![String::from("a"), String::from("b")],
        locations: vec![
            (String::from("b"), [3, 4]),
            (String::from("a"), [1, 2]),
            (String::from("a"), [-5, -6]),
        ],
    };
    let map = build_map(&doc, vec![dummy_landmark(1), dummy_landmark(2)]).unwrap();
    assert_eq!(map.name(), Some(String::from("doc")));
    let locs = map.locations();
    assert_eq!(locs.len(), 3);
    assert_eq!(locs[0].id.to_index(), 1);
    assert_eq!(locs[0].location, Coordinate { x: 3, y: 4 });
    assert_eq!(locs[1].id.to_index(), 0);
    assert_eq!(locs[1].location, Coordinate { x: 1, y: 2 });
    assert_eq!(locs[2].id.to_index(), 0);
    assert_eq!(locs[2].location, Coordinate { x: -5, y: -6 });
    // Landmarks are stored under their declared names.
    assert_eq!(
        map.landmark(&map.landmark_ids()[0]).name(),
        Some(String::from("a"))
    );
    assert_eq!(
        map.landmark(&map.landmark_ids()[1]).name(),
        Some(String::from("b"))
    );
}

#[test]
fn test_build_map_unknown_landmark_errors() {
    let doc = MapSpecification {
        name: None,
        landmarks: vec![String::from("a")],
        locations: vec![
            (String::from("a"), [0, 0]),
            (String::from("missing"), [1, 1]),
        ],
    };
    let err = build_map(&doc, vec![dummy_landmark(1)]).unwrap_err();
    assert_eq!(err, MapBuildError::UnknownLandmark(String::from("missing")));
}

#[test]
fn test_build_map_duplicate_name_last_wins() {
    let doc = MapSpecification {
        name: None,
        landmarks: vec![String::from("a"), String::from("a")],
        locations: vec![(String::from("a"), [0, 0])],
    };
    let map = build_map(&doc, vec![dummy_landmark(1), dummy_landmark(2)]).unwrap();
    assert_eq!(map.locations()[0].id.to_index(), 1);
}

#[test]
fn test_from_map_names_and_locations() {
    let mut map = LandmarkMap::default();
    let mut named = dummy_landmark(1);
    named.set_name(Some(String::from("anchor")));
    let a = map.add_landmark(named);
    let b = map.add_landmark(dummy_landmark(2));
    map.add_fixed(a, Coordinate { x: 10, y: -20 });
    map.add_fixed(b, Coordinate { x: 0, y: 3 });
    map.set_name(Some(String::from("m")));

    let doc = MapSpecification::from_map(&map);
    assert_eq!(doc.name, Some(String::from("m")));
    assert_eq!(
        doc.landmarks,
        vec![String::from("anchor"), String::from("landmark_1")]
    );
    assert_eq!(
        doc.locations,
        vec![
            (String::from("anchor"), [10, -20]),
            (String::from("landmark_1"), [0, 3]),
        ]
    );
}

#[test]
fn test_from_map_decimal_names() {
    let mut map = LandmarkMap::default();
    for i in 0..12 {
        map.add_landmark(dummy_landmark(i));
    }
    let doc = MapSpecification::from_map(&map);
    assert_eq!(doc.landmarks[0], String::from("landmark_0"));
    assert_eq!(doc.landmarks[10], String::from("landmark_10"));
    assert_eq!(doc.landmarks[11], String::from("landmark_11"));
}
