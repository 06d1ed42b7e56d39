use pixel_landmark_localizer::landmark::Image;
use pixel_landmark_localizer::landmark::Landmark;
use pixel_landmark_localizer::landmark::Rgba;
use pixel_landmark_localizer::localizer::Localizer;
use pixel_landmark_localizer::localizer::LocalizerConfig;
use pixel_landmark_localizer::map::LandmarkMap;
use pixel_landmark_localizer::util::Coordinate;
use pixel_landmark_localizer::util::Rect;

fn opaque(r: u8, g: u8, b: u8) -> Rgba {
    Rgba { r, g, b, a: 255 }
}

/// The 3x3 fully-opaque reference pattern: RGB (10, 20, 30) everywhere.
fn pattern_landmark() -> Landmark {
    let template = Image::filled(3, 3, opaque(10, 20, 30));
    Landmark::from_image(&template, 0)
}

/// A frame whose background differs from the pattern, with the 3x3 pattern
/// drawn at screen offset (px, py).
fn frame_with_pattern(w: u32, h: u32, px: u32, py: u32) -> Image {
    let mut img = Image::filled(w, h, opaque(200, 200, 200));
    for dy in 0..3 {
        for dx in 0..3 {
            img.set_pixel(px + dx, py + dy, opaque(10, 20, 30));
        }
    }
    img
}

#[test]
fn test_search_landmarks_limit_one_is_first_of_wider_search() {
    // The single result of a limit-1 search equals the first element of a
    // limit-N search over the same inputs, for any N >= 1.
    let lm = pattern_landmark();
    let mut img = frame_with_pattern(60, 60, 10, 10);
    // A second occurrence farther from the search box center.
    for dy in 0..3 {
        for dx in 0..3 {
            img.set_pixel(40 + dx, 40 + dy, opaque(10, 20, 30));
        }
    }
    let roi = Rect {
        x: 0,
        y: 0,
        w: 57,
        h: 57,
    };
    let first = Localizer::search_landmarks(&img, &roi, &lm, 1);
    let some = Localizer::search_landmarks(&img, &roi, &lm, 7);
    let all = Localizer::search_landmarks(&img, &roi, &lm, usize::MAX);
    assert_eq!(first.len(), 1);
    assert_eq!(all.len(), 2);
    assert_eq!(first[0], some[0]);
    assert_eq!(first[0], all[0]);
    let single = Localizer::search_landmark(&img, &roi, &lm);
    assert_eq!(single, Some(first[0]));
}

#[test]
fn test_search_landmarks_limit_zero_is_empty() {
    let lm = pattern_landmark();
    let img = frame_with_pattern(30, 30, 10, 10);
    let roi = Rect {
        x: 0,
        y: 0,
        w: 27,
        h: 27,
    };
    assert!(Localizer::search_landmarks(&img, &roi, &lm, 0).is_empty());
}

#[test]
fn test_search_landmarks_finds_all_occurrences() {
    let lm = pattern_landmark();
    let mut img = frame_with_pattern(40, 40, 2, 3);
    for dy in 0..3 {
        for dx in 0..3 {
            img.set_pixel(20 + dx, 30 + dy, opaque(10, 20, 30));
        }
    }
    let roi = Rect {
        x: 0,
        y: 0,
        w: 40,
        h: 40,
    };
    let mut found: Vec<Coordinate> = Localizer::search_landmarks(&img, &roi, &lm, usize::MAX)
        .iter()
        .map(|sc| sc.0)
        .collect();
    found.sort_by_key(|c| (c.x, c.y));
    assert_eq!(
        found,
        vec![Coordinate { x: 2, y: 3 }, Coordinate { x: 20, y: 30 }]
    );
}

#[test]
fn test_localize_scenario_exact() {
    // One 3x3 fully-opaque landmark placed at map (100, 100); the frame
    // holds the pattern at screen (100, 100); starting position (0, 0).
    let mut map = LandmarkMap::default();
    let id = map.add_landmark(pattern_landmark());
    map.add_fixed(id, Coordinate { x: 100, y: 100 });
    let mut localizer = Localizer::new(map, Coordinate { x: 0, y: 0 }, LocalizerConfig::default());

    let img = frame_with_pattern(200, 200, 100, 100);
    let roi = Rect {
        x: 0,
        y: 0,
        w: 197,
        h: 197,
    };
    let res = localizer.localize(&img, &roi).expect("should localize");
    assert_eq!(res.position, Coordinate { x: 0, y: 0 });
    assert_eq!(res.consistent_count, 1);
    assert_eq!(res.matches.len(), 1);
}

#[test]
fn test_localize_scenario_drift() {
    // Same map, but the pattern appears at screen (105, 103): 5px/3px drift.
    let mut map = LandmarkMap::default();
    let id = map.add_landmark(pattern_landmark());
    map.add_fixed(id, Coordinate { x: 100, y: 100 });
    let mut localizer = Localizer::new(map, Coordinate { x: 0, y: 0 }, LocalizerConfig::default());

    let img = frame_with_pattern(200, 200, 105, 103);
    let roi = Rect {
        x: 0,
        y: 0,
        w: 197,
        h: 197,
    };
    let res = localizer.localize(&img, &roi).expect("should localize");
    assert_eq!(res.position, Coordinate { x: -5, y: -3 });
}

#[test]
fn test_localize_nothing_found() {
    let mut map = LandmarkMap::default();
    let id = map.add_landmark(pattern_landmark());
    map.add_fixed(id, Coordinate { x: 100, y: 100 });
    let mut localizer = Localizer::new(map, Coordinate { x: 0, y: 0 }, LocalizerConfig::default());

    // No pattern anywhere in the frame.
    let img = Image::filled(200, 200, opaque(200, 200, 200));
    let roi = Rect {
        x: 0,
        y: 0,
        w: 197,
        h: 197,
    };
    assert!(localizer.localize(&img, &roi).is_none());
}

#[test]
fn test_relocalize_scenario_repeated_pattern() {
    // Two placements of the same landmark id at (0, 0) and (1000, 0); the
    // frame holds the pattern once at screen (0, 0); starting position
    // (0, 0). Either placement explains the detection, so the elected
    // position must be exactly one of the two implied estimates, with a
    // consistent count of 1.
    let mut map = LandmarkMap::default();
    let id = map.add_landmark(pattern_landmark());
    map.add_fixed(id, Coordinate { x: 0, y: 0 });
    map.add_fixed(id, Coordinate { x: 1000, y: 0 });
    let mut localizer = Localizer::new(map, Coordinate { x: 0, y: 0 }, LocalizerConfig::default());

    let img = frame_with_pattern(50, 50, 0, 0);
    let roi = Rect {
        x: 0,
        y: 0,
        w: 47,
        h: 47,
    };
    let res = localizer.relocalize(&img, &roi).expect("should relocalize");
    assert_eq!(res.consistent_count, 1);
    assert_eq!(res.matches.len(), 2);
    let allowed = [Coordinate { x: 0, y: 0 }, Coordinate { x: 1000, y: 0 }];
    assert!(allowed.contains(&res.position));
    // The tie-break is deterministic: the earliest match wins.
    assert_eq!(res.position, Coordinate { x: 0, y: 0 });
}

#[test]
fn test_relocalize_majority_vote() {
    // Two landmarks agree on one position; a third placement of a repeated
    // pattern disagrees. The majority wins.
    let mut map = LandmarkMap::default();
    let a = map.add_landmark(pattern_landmark());
    let b = {
        let template = Image::filled(2, 2, opaque(90, 10, 60));
        map.add_landmark(Landmark::from_image(&template, 0))
    };
    map.add_fixed(a, Coordinate { x: 10, y: 10 });
    map.add_fixed(a, Coordinate { x: 500, y: 500 });
    map.add_fixed(b, Coordinate { x: 30, y: 20 });
    let mut localizer = Localizer::new(map, Coordinate { x: 0, y: 0 }, LocalizerConfig::default());

    let mut img = frame_with_pattern(60, 60, 10, 10);
    for dy in 0..2 {
        for dx in 0..2 {
            img.set_pixel(30 + dx, 20 + dy, opaque(90, 10, 60));
        }
    }
    let roi = Rect {
        x: 0,
        y: 0,
        w: 57,
        h: 57,
    };
    let res = localizer.relocalize(&img, &roi).expect("should relocalize");
    // Matches: pattern a at (10,10) against both placements, pattern b at
    // (30,20) against its single placement. Two matches imply (0,0).
    assert_eq!(res.position, Coordinate { x: 0, y: 0 });
    assert_eq!(res.consistent_count, 2);
    assert_eq!(res.matches.len(), 3);
}

#[test]
fn test_relocalize_updates_position() {
    let mut map = LandmarkMap::default();
    let id = map.add_landmark(pattern_landmark());
    map.add_fixed(id, Coordinate { x: 40, y: 40 });
    let mut localizer =
        Localizer::new(map, Coordinate { x: 999, y: 999 }, LocalizerConfig::default());

    let img = frame_with_pattern(50, 50, 35, 30);
    let roi = Rect {
        x: 0,
        y: 0,
        w: 47,
        h: 47,
    };
    let res = localizer.relocalize(&img, &roi).expect("should relocalize");
    // position = placement - screen = (40 - 35, 40 - 30).
    assert_eq!(res.position, Coordinate { x: 5, y: 10 });
    // A follow-up incremental call tracks from the adopted position.
    let res2 = localizer.localize(&img, &roi).expect("should localize");
    assert_eq!(res2.position, Coordinate { x: 5, y: 10 });
}

#[test]
fn test_mapping_inserts_novel_placements_only() {
    // mapping never inserts a (landmark id, coordinate) pair already present
    // among the map's placements; novel detections are appended.
    let mut map = LandmarkMap::default();
    let id = map.add_landmark(pattern_landmark());
    map.add_fixed(id, Coordinate { x: 5, y: 5 });
    let mut localizer = Localizer::new(map, Coordinate { x: 0, y: 0 }, LocalizerConfig::default());

    let mut img = frame_with_pattern(60, 60, 5, 5);
    for dy in 0..3 {
        for dx in 0..3 {
            img.set_pixel(40 + dx, 41 + dy, opaque(10, 20, 30));
        }
    }
    let roi = Rect {
        x: 0,
        y: 0,
        w: 57,
        h: 57,
    };
    localizer.mapping(&img, &roi);
    let locs = localizer.map().locations().to_vec();
    assert_eq!(locs.len(), 2);
    assert_eq!(locs[0].location, Coordinate { x: 5, y: 5 });
    assert_eq!(locs[1].location, Coordinate { x: 40, y: 41 });
    // No duplicates at all.
    for (i, a) in locs.iter().enumerate() {
        for b in locs.iter().skip(i + 1) {
            assert_ne!(a, b);
        }
    }
    // Running the same mapping again adds nothing.
    localizer.mapping(&img, &roi);
    assert_eq!(localizer.map().locations().len(), 2);
}

#[test]
fn test_set_position() {
    let map = LandmarkMap::default();
    let mut localizer = Localizer::new(map, Coordinate { x: 0, y: 0 }, LocalizerConfig::default());
    localizer.set_position(Coordinate { x: 12, y: -3 });
    let img = Image::filled(10, 10, opaque(0, 0, 0));
    let roi = Rect {
        x: 0,
        y: 0,
        w: 7,
        h: 7,
    };
    // An empty map localizes nothing and keeps the position.
    assert!(localizer.localize(&img, &roi).is_none());
    assert!(localizer.relocalize(&img, &roi).is_none());
}

#[test]
fn test_localizer_config_default() {
    assert_eq!(LocalizerConfig::default().search_box, 55);
}
