use pixel_landmark_localizer::config::get_config;
use pixel_landmark_localizer::config::CaptureSpecification;
use pixel_landmark_localizer::config::Config;
use pixel_landmark_localizer::config::LandmarkSpecification;
use pixel_landmark_localizer::test_roi;
use pixel_landmark_localizer::util::Rect;

#[test]
fn test_get_config_no_specs_full_screen() {
    let r = get_config(1920, 1080, &[]);
    assert_eq!(
        r,
        CaptureSpecification {
            width: 1920,
            height: 1080,
            ..Default::default()
        }
    );
}

#[test]
fn test_get_config_first_match_wins_and_populates() {
    let specs = [
        CaptureSpecification {
            match_width: Some(1000),
            ..Default::default()
        },
        CaptureSpecification {
            match_width: Some(1920),
            match_height: Some(1080),
            x: 100,
            y: 50,
            display: 2,
            ..Default::default()
        },
        CaptureSpecification {
            match_width: Some(1920),
            width: 5,
            ..Default::default()
        },
    ];
    let r = get_config(1920, 1080, &specs);
    // The second specification is the first to match; its zero extents are
    // filled from the resolution minus the offsets.
    assert_eq!(r.x, 100);
    assert_eq!(r.y, 50);
    assert_eq!(r.width, 1820);
    assert_eq!(r.height, 1030);
    assert_eq!(r.display, 2);
}

#[test]
fn test_get_config_explicit_extents_kept() {
    let specs = [CaptureSpecification {
        match_height: Some(1080),
        x: 10,
        y: 20,
        width: 640,
        height: 480,
        ..Default::default()
    }];
    let r = get_config(2560, 1080, &specs);
    assert_eq!(r.width, 640);
    assert_eq!(r.height, 480);
}

#[test]
fn test_get_config_mismatch_falls_through() {
    let specs = [CaptureSpecification {
        match_width: Some(800),
        match_height: Some(600),
        display: 7,
        ..Default::default()
    }];
    let r = get_config(1920, 1080, &specs);
    assert_eq!(r.display, 0);
    assert_eq!(r.width, 1920);
    assert_eq!(r.height, 1080);
}

#[test]
fn test_config_default_is_empty() {
    assert!(Config::default().capture.is_empty());
}

#[test]
fn test_landmark_specification_default() {
    let s = LandmarkSpecification::default();
    assert_eq!(s.pixel_difference_threshold, 0);
    assert!(s.filename.is_none());
}

#[test]
fn test_test_roi() {
    assert_eq!(
        test_roi(),
        Rect {
            x: 0,
            y: 0,
            w: 640,
            h: 408
        }
    );
}
