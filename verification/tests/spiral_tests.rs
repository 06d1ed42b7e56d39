use pixel_landmark_localizer::util::Coordinate;
use pixel_landmark_localizer::util::Rect;

fn collect_spiral(rect: &Rect) -> Vec<Coordinate> {
    let mut out = Vec::new();
    let mut it = rect.spiral();
    while let Some(c) = it.next() {
        out.push(c);
    }
    out
}

fn assert_spiral(rect: &Rect, print: bool) {
    if print {
        println!("Rect: {rect:?}");
        for s in collect_spiral(rect) {
            println!("{s:?}");
        }
    }

    let mut spiral_vec = collect_spiral(rect);
    let mut square_vec = rect.indices();

    for c in square_vec.clone() {
        if print {
            println!("c: {c:?}");
            println!("spiral_vec: {spiral_vec:?}");
        }
        let spiral_pos = spiral_vec
            .iter()
            .position(|z| z == &c)
            .expect("could not find coord");
        let square_pos = square_vec
            .iter()
            .position(|z| z == &c)
            .expect("could not find coord");
        spiral_vec.remove(spiral_pos);
        square_vec.remove(square_pos);
    }
    assert!(spiral_vec.is_empty());
    assert!(square_vec.is_empty());
}

#[test]
fn test_spiral_3() {
    let r = Rect {
        x: 0,
        y: 0,
        w: 3,
        h: 3,
    };
    assert_spiral(&r, false);

    let r = Rect {
        x: 0,
        y: 0,
        w: 2,
        h: 2,
    };
    assert_spiral(&r, false);

    let r = Rect {
        x: 0,
        y: 0,
        w: 2,
        h: 3,
    };
    assert_spiral(&r, false);

    let r = Rect {
        x: 0,
        y: 0,
        w: 3,
        h: 2,
    };
    assert_spiral(&r, false);

    let r = Rect {
        x: -1,
        y: 0,
        w: 3,
        h: 2,
    };
    assert_spiral(&r, false);

    let r = Rect {
        x: 0,
        y: 1,
        w: 3,
        h: 2,
    };
    assert_spiral(&r, false);

    let r = Rect {
        x: 0,
        y: 0,
        w: 4,
        h: 4,
    };
    assert_spiral(&r, false);

    let r = Rect {
        x: -2,
        y: -2,
        w: 4,
        h: 4,
    };
    assert_spiral(&r, true);
}

#[test]
fn test_spiral_count_and_uniqueness() {
    // Spiral enumeration yields exactly w*h coordinates, each interior
    // coordinate exactly once, for asymmetric and odd/even mixes too.
    let cases = vec![
        (0, 0, 1, 1),
        (5, -7, 1, 6),
        (-3, 4, 6, 1),
        (10, 10, 3, 5),
        (-10, -10, 5, 3),
        (2, 3, 7, 4),
        (0, 0, 8, 8),
    ];
    for (x, y, w, h) in cases {
        let r = Rect { x, y, w, h };
        let spiral = collect_spiral(&r);
        assert_eq!(spiral.len(), (w * h) as usize, "count for {r:?}");
        for cx in x..(x + w as i32) {
            for cy in y..(y + h as i32) {
                let hits = spiral
                    .iter()
                    .filter(|c| c.x == cx && c.y == cy)
                    .count();
                assert_eq!(hits, 1, "coordinate ({cx},{cy}) in {r:?}");
            }
        }
    }
}

#[test]
fn test_spiral_starts_at_center() {
    let r = Rect {
        x: 0,
        y: 0,
        w: 3,
        h: 3,
    };
    let spiral = collect_spiral(&r);
    assert_eq!(spiral[0], Coordinate { x: 1, y: 1 });

    // Even dimensions: center is origin + size/2 - 1 per axis.
    let r = Rect {
        x: 0,
        y: 0,
        w: 4,
        h: 4,
    };
    let spiral = collect_spiral(&r);
    assert_eq!(spiral[0], Coordinate { x: 1, y: 1 });
}

#[test]
fn test_spiral_expands_outward() {
    // The Chebyshev distance to the center never decreases along the walk.
    let r = Rect {
        x: -3,
        y: 2,
        w: 7,
        h: 6,
    };
    let (cx, cy) = (-3 + 7 / 2, 2 + 6 / 2 - 1);
    let spiral = collect_spiral(&r);
    let mut last_ring = 0;
    for c in spiral {
        let ring = (c.x - cx).abs().max((c.y - cy).abs());
        assert!(ring >= last_ring);
        last_ring = ring;
    }
}

#[test]
fn test_spiral_empty_rect() {
    let r = Rect {
        x: 3,
        y: 3,
        w: 0,
        h: 5,
    };
    assert!(collect_spiral(&r).is_empty());
    let r = Rect {
        x: 3,
        y: 3,
        w: 5,
        h: 0,
    };
    assert!(collect_spiral(&r).is_empty());
}

#[test]
fn test_indices_row_major() {
    let r = Rect {
        x: 1,
        y: 2,
        w: 2,
        h: 2,
    };
    let v = r.indices();
    assert_eq!(
        v,
        vec![
            Coordinate { x: 1, y: 2 },
            Coordinate { x: 2, y: 2 },
            Coordinate { x: 1, y: 3 },
            Coordinate { x: 2, y: 3 },
        ]
    );
}

#[test]
fn test_coordinate_ops() {
    let a = Coordinate { x: 3, y: -4 };
    let b = Coordinate { x: 10, y: 2 };
    assert_eq!(a.add(b), Coordinate { x: 13, y: -2 });
    assert_eq!(a.sub(b), Coordinate { x: -7, y: -6 });
    assert_eq!(a.neg(), Coordinate { x: -3, y: 4 });
    assert_eq!(a.dist_sq(), 25);
    assert_eq!(Coordinate::default(), Coordinate { x: 0, y: 0 });
}

#[test]
fn test_rect_contains_inclusive() {
    let r = Rect {
        x: 0,
        y: 0,
        w: 10,
        h: 5,
    };
    // Inclusive on both bounds: right edge is x + w, top edge is y + h.
    assert!(r.contains(0, 0));
    assert!(r.contains(10, 5));
    assert!(r.contains(10, 0));
    assert!(!r.contains(11, 0));
    assert!(!r.contains(0, 6));
    assert!(!r.contains(-1, 0));
    assert_eq!(r.left(), 0);
    assert_eq!(r.right(), 10);
    assert_eq!(r.bottom(), 0);
    assert_eq!(r.top(), 5);
    assert_eq!(r.width(), 10);
    assert_eq!(r.height(), 5);
}

#[test]
fn test_rect_overlaps() {
    let a = Rect {
        x: 0,
        y: 0,
        w: 10,
        h: 10,
    };
    let touching = Rect {
        x: 10,
        y: 0,
        w: 5,
        h: 5,
    };
    let separate = Rect {
        x: 11,
        y: 0,
        w: 5,
        h: 5,
    };
    assert!(a.overlaps(&touching));
    assert!(!a.overlaps_excluding(&touching));
    assert!(!a.overlaps(&separate));

    let inside = Rect {
        x: 2,
        y: 2,
        w: 3,
        h: 3,
    };
    assert!(a.overlaps(&inside));
    assert!(a.overlaps_excluding(&inside));
}

#[test]
fn test_rect_translate() {
    let r = Rect {
        x: 1,
        y: 2,
        w: 3,
        h: 4,
    };
    let c = Coordinate { x: 10, y: -20 };
    let moved = r.add(c);
    assert_eq!(
        moved,
        Rect {
            x: 11,
            y: -18,
            w: 3,
            h: 4
        }
    );
    assert_eq!(moved.sub(c), r);
}
