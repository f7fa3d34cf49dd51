use collage::canvas::Canvas;
use collage::color::Color;
use image::Pixel;

fn red() -> Color {
    Color::new(200, 10, 10, 255)
}

#[test]
fn filled_canvas_has_the_size_and_colour_asked_for() {
    let canvas = Canvas::filled(3, 2, red());
    assert_eq!(canvas.width(), 3);
    assert_eq!(canvas.height(), 2);
    for y in 0..2 {
        for x in 0..3 {
            assert_eq!(canvas.pixel(x, y), Some(red()));
        }
    }
}

#[test]
fn pixel_outside_the_canvas_is_none() {
    let canvas = Canvas::filled(3, 2, red());
    assert_eq!(canvas.pixel(3, 0), None);
    assert_eq!(canvas.pixel(0, 2), None);
    assert_eq!(canvas.pixel(u32::MAX, u32::MAX), None);
}

#[test]
fn empty_canvas_has_no_pixel() {
    let canvas = Canvas::filled(0, 5, red());
    assert_eq!(canvas.width(), 0);
    assert_eq!(canvas.height(), 5);
    assert_eq!(canvas.pixel(0, 0), None);
}

#[test]
fn set_pixel_changes_one_pixel_only() {
    let mut canvas = Canvas::filled(3, 3, Color::background());
    assert!(canvas.set_pixel(1, 2, red()));
    for y in 0..3 {
        for x in 0..3 {
            let expected = if (x, y) == (1, 2) { red() } else { Color::background() };
            assert_eq!(canvas.pixel_at(x, y), expected);
        }
    }
}

#[test]
fn set_pixel_outside_the_canvas_writes_nothing() {
    let mut canvas = Canvas::filled(2, 2, Color::background());
    assert!(!canvas.set_pixel(2, 0, red()));
    assert!(!canvas.set_pixel(0, 2, red()));
    for y in 0..2 {
        for x in 0..2 {
            assert_eq!(canvas.pixel_at(x, y), Color::background());
        }
    }
}

#[test]
fn paste_copies_the_whole_image_to_the_given_corner() {
    let mut canvas = Canvas::filled(5, 4, Color::background());
    let mut stamp = Canvas::filled(2, 2, red());
    stamp.set_pixel(1, 0, Color::new(1, 2, 3, 4));
    canvas.paste(&stamp, 3, 1);
    for y in 0..4 {
        for x in 0..5 {
            let expected = if (x, y) == (4, 1) {
                Color::new(1, 2, 3, 4)
            } else if (3..5).contains(&x) && (1..3).contains(&y) {
                red()
            } else {
                Color::background()
            };
            assert_eq!(canvas.pixel_at(x, y), expected);
        }
    }
}

#[test]
fn paste_of_an_empty_image_changes_nothing() {
    let mut canvas = Canvas::filled(2, 2, red());
    let nothing = Canvas::filled(0, 0, Color::border());
    canvas.paste(&nothing, 2, 2);
    assert_eq!(canvas.pixel_at(1, 1), red());
    assert_eq!(canvas.width(), 2);
    assert_eq!(canvas.height(), 2);
}

#[test]
fn overlay_replaces_under_opaque_and_keeps_under_transparent() {
    let mut canvas = Canvas::filled(3, 1, red());
    let mut top = Canvas::filled(2, 1, Color::new(0, 0, 250, 255));
    top.set_pixel(1, 0, Color::new(9, 9, 9, 0));
    canvas.overlay(&top, 1, 0);
    assert_eq!(canvas.pixel_at(0, 0), red());
    assert_eq!(canvas.pixel_at(1, 0), Color::new(0, 0, 250, 255));
    assert_eq!(canvas.pixel_at(2, 0), red());
}

#[test]
fn overlay_drops_what_falls_outside() {
    let mut canvas = Canvas::filled(2, 2, red());
    let top = Canvas::filled(5, 5, Color::new(0, 0, 250, 255));
    canvas.overlay(&top, 1, 1);
    assert_eq!(canvas.pixel_at(0, 0), red());
    assert_eq!(canvas.pixel_at(1, 0), red());
    assert_eq!(canvas.pixel_at(0, 1), red());
    assert_eq!(canvas.pixel_at(1, 1), Color::new(0, 0, 250, 255));
    let mut other = Canvas::filled(2, 2, red());
    other.overlay(&top, 7, 0);
    assert_eq!(other.pixel_at(1, 1), red());
}

#[test]
fn overlay_blends_a_translucent_pixel_as_the_image_crate_does() {
    let below = Color::new(200, 10, 10, 255);
    let above = Color::new(20, 40, 60, 128);
    let mut canvas = Canvas::filled(1, 1, below);
    let top = Canvas::filled(1, 1, above);
    canvas.overlay(&top, 0, 0);
    let mut expected = image::Rgba([below.r, below.g, below.b, below.a]);
    expected.blend(&image::Rgba([above.r, above.g, above.b, above.a]));
    let got = canvas.pixel_at(0, 0);
    assert_eq!([got.r, got.g, got.b, got.a], expected.0);
    assert_ne!(got, below);
    assert_ne!(got, above);
}

#[test]
fn can_allocate_tells_sizes_apart() {
    assert!(Canvas::can_allocate(0, 0));
    assert!(Canvas::can_allocate(10, 10));
    assert!(Canvas::can_allocate(0, u32::MAX as u64));
    assert!(!Canvas::can_allocate(u32::MAX as u64 + 1, 1));
    assert!(!Canvas::can_allocate(1, u32::MAX as u64 + 1));
    assert!(!Canvas::can_allocate(u32::MAX as u64, u32::MAX as u64));
    assert!(Canvas::can_allocate(0x3fff_ffff, 0));
    assert_eq!(Canvas::can_allocate(0x4000_0000, 0), 4 * 0x4000_0000u64 <= usize::MAX as u64);
    assert_eq!(Canvas::can_allocate(u32::MAX as u64, 0), 4 * (u32::MAX as u64) <= usize::MAX as u64);
    let most = (isize::MAX as u64) / 4;
    if most <= u32::MAX as u64 {
        assert!(Canvas::can_allocate(most, 1));
        assert!(!Canvas::can_allocate(most + 1, 1));
    } else {
        assert!(Canvas::can_allocate(u32::MAX as u64, 1));
    }
}

#[test]
fn sentinel_colours_ignore_alpha() {
    assert!(Color::background().is_background());
    assert!(Color::new(0, 0, 0, 0).is_background());
    assert!(!Color::new(0, 0, 1, 255).is_background());
    assert!(!Color::new(1, 0, 0, 255).is_background());
    assert!(Color::border().is_border());
    assert!(Color::new(255, 255, 255, 0).is_border());
    assert!(!Color::new(255, 254, 255, 255).is_border());
    assert!(!Color::background().is_border());
    assert!(!Color::border().is_background());
    assert_eq!(Color::background(), Color::new(0, 0, 0, 255));
    assert_eq!(Color::border(), Color::new(255, 255, 255, 255));
}
