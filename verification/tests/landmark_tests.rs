use pixel_landmark_localizer::landmark::Image;
use pixel_landmark_localizer::landmark::Landmark;
use pixel_landmark_localizer::landmark::Pixel;
use pixel_landmark_localizer::landmark::Rgb;
use pixel_landmark_localizer::landmark::Rgba;

fn opaque(r: u8, g: u8, b: u8) -> Rgba {
    Rgba { r, g, b, a: 255 }
}

fn transparent() -> Rgba {
    Rgba {
        r: 0,
        g: 0,
        b: 0,
        a: 0,
    }
}

/// A frame of the given background with a square patch of `color` whose
/// top-left corner sits at (px, py).
fn frame_with_patch(
    w: u32,
    h: u32,
    background: Rgba,
    color: Rgba,
    px: u32,
    py: u32,
    side: u32,
) -> Image {
    let mut img = Image::filled(w, h, background);
    for dy in 0..side {
        for dx in 0..side {
            img.set_pixel(px + dx, py + dy, color);
        }
    }
    img
}

#[test]
fn test_pixel_difference_exact() {
    let p = Pixel {
        rgb: Rgb {
            r: 10,
            g: 20,
            b: 30,
        },
        offset: (0, 0),
    };
    assert_eq!(
        p.difference(&Rgb {
            r: 13,
            g: 25,
            b: 20
        }),
        3 + 5 + 10
    );
    assert_eq!(
        p.difference(&Rgb {
            r: 10,
            g: 20,
            b: 30
        }),
        0
    );
    // Saturating in no direction: each channel contributes its absolute gap.
    assert_eq!(
        p.difference(&Rgb {
            r: 255,
            g: 0,
            b: 255
        }),
        245 + 20 + 225
    );
}

#[test]
fn test_from_image_collects_opaque_pixels_row_major() {
    let mut src = Image::filled(2, 2, opaque(1, 2, 3));
    src.set_pixel(1, 0, transparent());
    let lm = Landmark::from_image(&src, 7);
    assert_eq!(lm.width(), 2);
    assert_eq!(lm.height(), 2);
    assert_eq!(lm.pixel_difference_threshold(), 7);
    assert!(lm.name().is_none());
    let pixels = lm.pixels();
    assert_eq!(pixels.len(), 3);
    assert_eq!(pixels[0].offset, (0, 0));
    assert_eq!(pixels[1].offset, (0, 1));
    assert_eq!(pixels[2].offset, (1, 1));
    assert_eq!(pixels[0].rgb, Rgb { r: 1, g: 2, b: 3 });
}

#[test]
fn test_from_image_partial_alpha_is_hole() {
    let mut src = Image::filled(1, 2, opaque(9, 9, 9));
    src.set_pixel(
        0,
        1,
        Rgba {
            r: 9,
            g: 9,
            b: 9,
            a: 254,
        },
    );
    let lm = Landmark::from_image(&src, 0);
    assert_eq!(lm.pixels().len(), 1);
    assert_eq!(lm.pixels()[0].offset, (0, 0));
}

#[test]
fn test_present_exact_match() {
    let template = Image::filled(3, 3, opaque(10, 20, 30));
    let lm = Landmark::from_image(&template, 0);
    let img = frame_with_patch(20, 20, opaque(0, 0, 0), opaque(10, 20, 30), 5, 7, 3);
    assert!(lm.present(&img, (5, 7)));
    assert!(!lm.present(&img, (6, 7)));
    assert!(!lm.present(&img, (0, 0)));
}

#[test]
fn test_present_threshold() {
    let template = Image::filled(1, 1, opaque(100, 100, 100));
    let lm = Landmark::from_image(&template, 5);
    let mut img = Image::filled(1, 1, opaque(101, 102, 102));
    // Manhattan distance 1 + 2 + 2 = 5: within the threshold.
    assert!(lm.present(&img, (0, 0)));
    img.set_pixel(0, 0, opaque(101, 102, 103));
    // Distance 6: over the threshold.
    assert!(!lm.present(&img, (0, 0)));
}

#[test]
fn test_present_out_of_bounds_is_false() {
    // Presence is false whenever position + (width, height) exceeds the
    // image, for any pixel set or threshold; no out-of-bounds access occurs.
    let template = Image::filled(3, 2, opaque(10, 20, 30));
    let lm = Landmark::from_image(&template, 65535);
    let img = Image::filled(10, 10, opaque(10, 20, 30));
    assert!(lm.present(&img, (7, 8)));
    assert!(!lm.present(&img, (8, 8)));
    assert!(!lm.present(&img, (7, 9)));
    assert!(!lm.present(&img, (10, 0)));
    assert!(!lm.present(&img, (4294967295, 0)));
}

#[test]
fn test_present_holes_ignore_image_content() {
    let mut src = Image::filled(2, 1, opaque(5, 5, 5));
    src.set_pixel(1, 0, transparent());
    let lm = Landmark::from_image(&src, 0);
    let mut img = Image::filled(2, 1, opaque(5, 5, 5));
    img.set_pixel(1, 0, opaque(200, 200, 200));
    // The hole masks the changed pixel.
    assert!(lm.present(&img, (0, 0)));
}

#[test]
fn test_present_translation_covariant() {
    // A match survives a uniform shift of the scene while in bounds.
    let template = frame_with_patch(3, 3, opaque(10, 20, 30), opaque(50, 60, 70), 1, 1, 1);
    let lm = Landmark::from_image(&template, 0);
    let img = frame_with_patch(30, 30, opaque(10, 20, 30), opaque(50, 60, 70), 5, 6, 1);
    // Shift the whole scene by (dx, dy) = (9, 4).
    let img2 = frame_with_patch(30, 30, opaque(10, 20, 30), opaque(50, 60, 70), 14, 10, 1);
    assert!(lm.present(&img, (4, 5)));
    assert!(lm.present(&img2, (13, 9)));
}

#[test]
fn test_optimize_pixels_preserves_multiset_and_orders_rows() {
    let mut src = Image::filled(3, 2, opaque(1, 1, 1));
    src.set_pixel(1, 0, transparent());
    let mut lm = Landmark::from_image(&src, 0);
    let before: Vec<Pixel> = lm.pixels().to_vec();
    lm.optimize_pixels_row_seq();
    let after: Vec<Pixel> = lm.pixels().to_vec();
    assert_eq!(before.len(), after.len());
    // Same multiset: every pixel occurs equally often on both sides.
    for p in &before {
        let nb = before.iter().filter(|q| *q == p).count();
        let na = after.iter().filter(|q| *q == p).count();
        assert_eq!(nb, na);
    }
    // Row-major order: by row, then by column.
    for w in after.windows(2) {
        let a = w[0].offset;
        let b = w[1].offset;
        assert!(a.1 < b.1 || (a.1 == b.1 && a.0 <= b.0));
    }
}

#[test]
fn test_to_rgba_renders_pixels_and_holes() {
    let mut src = Image::filled(2, 1, opaque(7, 8, 9));
    src.set_pixel(1, 0, transparent());
    let lm = Landmark::from_image(&src, 0);
    let rendered = lm.to_rgba();
    assert_eq!(rendered.width(), 2);
    assert_eq!(rendered.height(), 1);
    assert_eq!(rendered.get_pixel(0, 0), opaque(7, 8, 9));
    assert_eq!(rendered.get_pixel(1, 0), transparent());
}

#[test]
fn test_landmark_name_and_threshold_setters() {
    let src = Image::filled(1, 1, opaque(1, 2, 3));
    let mut lm = Landmark::from_image(&src, 0);
    lm.set_pixel_difference_threshold(42);
    assert_eq!(lm.pixel_difference_threshold(), 42);
    lm.set_name(Some(String::from("anchor")));
    assert_eq!(lm.name(), Some(String::from("anchor")));
    lm.set_name(None);
    assert!(lm.name().is_none());
}

#[test]
fn test_image_new_checks_dimensions() {
    let pixels = vec![opaque(0, 0, 0); 6];
    assert!(Image::new(2, 3, pixels.clone()).is_some());
    assert!(Image::new(2, 4, pixels).is_none());
}
