use collage::builder::{arrange, create_collage, CollageConfig, PlacementOrder};
use collage::canvas::Canvas;
use collage::color::Color;
use collage::error::CollageError;

fn framed_image(width: u32, height: u32, inner: Color) -> Canvas {
    let mut canvas = Canvas::filled(width, height, Color::border());
    for y in 1..height.saturating_sub(1) {
        for x in 1..width.saturating_sub(1) {
            canvas.set_pixel(x, y, inner);
        }
    }
    canvas
}

fn shade(n: u8) -> Color {
    Color::new(n, 100, 200 - n, 255)
}

fn sizes(images: &Vec<Canvas>) -> Vec<(u32, u32)> {
    images.iter().map(|c| (c.width(), c.height())).collect()
}

fn assert_region(canvas: &Canvas, left: u32, top: u32, image: &Canvas) {
    for y in 0..image.height() {
        for x in 0..image.width() {
            assert_eq!(canvas.pixel(left + x, top + y), image.pixel(x, y), "at {} {}", x, y);
        }
    }
}

fn assert_same(a: &Canvas, b: &Canvas) {
    assert_eq!((a.width(), a.height()), (b.width(), b.height()));
    assert_region(a, 0, 0, b);
}

fn build(images: Vec<Canvas>) -> Canvas {
    create_collage(images, &CollageConfig::default()).unwrap_or_else(|_| panic!())
}

#[test]
fn default_config_orders_by_area() {
    let config = CollageConfig::default();
    assert_eq!(config.order, PlacementOrder::Area);
    assert_eq!(config.border_size, 5);
    assert_eq!(config.standard_width, 500);
    assert_eq!(config.max_growth_steps, 64);
}

#[test]
fn arrange_by_area_puts_the_largest_first() {
    let mut images = vec![
        framed_image(2, 2, shade(1)),
        framed_image(5, 5, shade(2)),
        framed_image(3, 4, shade(3)),
        framed_image(10, 1, shade(4)),
    ];
    arrange(&mut images, PlacementOrder::Area);
    assert_eq!(sizes(&images), vec![(5, 5), (3, 4), (10, 1), (2, 2)]);
}

#[test]
fn arrange_by_width_puts_the_widest_first() {
    let mut images = vec![
        framed_image(2, 2, shade(1)),
        framed_image(5, 5, shade(2)),
        framed_image(3, 4, shade(3)),
        framed_image(10, 1, shade(4)),
    ];
    arrange(&mut images, PlacementOrder::Width);
    assert_eq!(sizes(&images), vec![(10, 1), (5, 5), (3, 4), (2, 2)]);
}

#[test]
fn arrange_keeps_equals_in_the_order_given() {
    let mut images = vec![
        Canvas::filled(2, 6, shade(1)),
        Canvas::filled(4, 4, shade(2)),
        Canvas::filled(6, 2, shade(3)),
        Canvas::filled(4, 4, shade(4)),
        Canvas::filled(3, 4, shade(5)),
        Canvas::filled(4, 3, shade(6)),
    ];
    arrange(&mut images, PlacementOrder::Area);
    assert_eq!(sizes(&images), vec![(4, 4), (4, 4), (2, 6), (6, 2), (3, 4), (4, 3)]);
    let colours: Vec<Option<Color>> = images.iter().map(|c| c.pixel(0, 0)).collect();
    let expected: Vec<Option<Color>> =
        [2u8, 4, 1, 3, 5, 6].iter().map(|n| Some(shade(*n))).collect();
    assert_eq!(colours, expected);
}

#[test]
fn arrange_of_nothing_and_of_one() {
    let mut none: Vec<Canvas> = Vec::new();
    arrange(&mut none, PlacementOrder::Area);
    assert!(none.is_empty());
    let mut one = vec![framed_image(3, 3, shade(1))];
    arrange(&mut one, PlacementOrder::Width);
    assert_eq!(sizes(&one), vec![(3, 3)]);
}

#[test]
fn single_rectangle_is_the_collage() {
    let image = framed_image(10, 10, shade(7));
    let collage = build(vec![framed_image(10, 10, shade(7))]);
    assert_same(&collage, &image);
}

#[test]
fn single_rectangle_without_a_frame_is_kept_as_it_is() {
    let mut image = Canvas::filled(10, 10, shade(9));
    image.set_pixel(0, 0, Color::background());
    image.set_pixel(3, 4, Color::new(1, 2, 3, 4));
    let mut again = Canvas::filled(10, 10, shade(9));
    again.set_pixel(0, 0, Color::background());
    again.set_pixel(3, 4, Color::new(1, 2, 3, 4));
    let collage = build(vec![image]);
    assert_same(&collage, &again);
}

#[test]
fn two_rectangles_stand_side_by_side() {
    let large = framed_image(10, 10, shade(1));
    let small = framed_image(4, 4, shade(2));
    let collage = build(vec![framed_image(10, 10, shade(1)), framed_image(4, 4, shade(2))]);
    assert!(collage.width() >= 10 && collage.height() >= 10);
    assert_eq!((collage.width(), collage.height()), (14, 10));
    assert_region(&collage, 0, 0, &large);
    assert_region(&collage, 10, 0, &small);
}

#[test]
fn smaller_rectangle_given_first_is_still_placed_second() {
    let large = framed_image(10, 10, shade(1));
    let small = framed_image(4, 4, shade(2));
    let collage = build(vec![framed_image(4, 4, shade(2)), framed_image(10, 10, shade(1))]);
    assert_eq!((collage.width(), collage.height()), (14, 10));
    assert_region(&collage, 0, 0, &large);
    assert_region(&collage, 10, 0, &small);
}

#[test]
fn equal_areas_keep_the_first_as_seed() {
    let wide = framed_image(8, 4, shade(1));
    let high = framed_image(4, 8, shade(2));
    let collage = build(vec![framed_image(8, 4, shade(1)), framed_image(4, 8, shade(2))]);
    assert_eq!((collage.width(), collage.height()), (8, 12));
    assert_region(&collage, 0, 0, &wide);
    assert_region(&collage, 0, 4, &high);
    let collage = build(vec![framed_image(4, 8, shade(2)), framed_image(8, 4, shade(1))]);
    assert_eq!((collage.width(), collage.height()), (12, 8));
    assert_region(&collage, 0, 0, &high);
    assert_region(&collage, 4, 0, &wide);
}

#[test]
fn order_by_width_changes_the_seed() {
    let config = CollageConfig { order: PlacementOrder::Width, ..CollageConfig::default() };
    let high = framed_image(4, 8, shade(1));
    let wide = framed_image(6, 2, shade(2));
    let images = vec![framed_image(4, 8, shade(1)), framed_image(6, 2, shade(2))];
    let collage = create_collage(images, &config).unwrap_or_else(|_| panic!());
    assert_region(&collage, 0, 0, &wide);
    assert_eq!((collage.width(), collage.height()), (6, 10));
    assert_region(&collage, 0, 2, &high);
    let images = vec![framed_image(4, 8, shade(1)), framed_image(6, 2, shade(2))];
    let collage = build(images);
    assert_region(&collage, 0, 0, &high);
    assert_eq!((collage.width(), collage.height()), (10, 8));
    assert_region(&collage, 4, 0, &wide);
}

#[test]
fn empty_input_is_an_error() {
    let result = create_collage(Vec::new(), &CollageConfig::default());
    assert!(matches!(result, Err(CollageError::EmptyInput)));
}

#[test]
fn growth_bound_is_an_error() {
    let config = CollageConfig { max_growth_steps: 0, ..CollageConfig::default() };
    let images = vec![framed_image(10, 10, shade(1)), framed_image(4, 4, shade(2))];
    let result = create_collage(images, &config);
    assert!(matches!(result, Err(CollageError::PlacementFailure)));
    let images = vec![framed_image(10, 10, shade(1))];
    assert!(create_collage(images, &config).is_ok());
}

#[test]
fn images_without_border_pixels_cannot_be_joined() {
    let images = vec![Canvas::filled(5, 5, shade(1)), Canvas::filled(2, 2, shade(2))];
    let result = create_collage(images, &CollageConfig::default());
    assert!(matches!(result, Err(CollageError::PlacementFailure)));
}

fn five_images() -> Vec<Canvas> {
    vec![
        framed_image(6, 3, shade(10)),
        framed_image(12, 9, shade(20)),
        framed_image(5, 5, shade(30)),
        framed_image(7, 3, shade(40)),
        framed_image(3, 8, shade(50)),
    ]
}

#[test]
fn collage_is_at_least_as_large_as_its_images() {
    let collage = build(five_images());
    let total: u64 = five_images().iter().map(|c| c.width() as u64 * c.height() as u64).sum();
    assert_eq!(total, 18 + 108 + 25 + 21 + 24);
    assert!(collage.width() as u64 * collage.height() as u64 >= total);
}

#[test]
fn collage_holds_every_image_once_and_whole() {
    let collage = build(five_images());
    let mut occupied: u64 = 0;
    for y in 0..collage.height() {
        for x in 0..collage.width() {
            if !collage.pixel_at(x, y).is_background() {
                occupied += 1;
            }
        }
    }
    assert_eq!(occupied, 18 + 108 + 25 + 21 + 24);
    for image in five_images() {
        let inner = image.pixel_at(1, 1);
        let expected = (image.width() as u64 - 2) * (image.height() as u64 - 2);
        let mut found: u64 = 0;
        for y in 0..collage.height() {
            for x in 0..collage.width() {
                if collage.pixel_at(x, y) == inner {
                    found += 1;
                }
            }
        }
        assert_eq!(found, expected);
    }
}

#[test]
fn same_input_gives_the_same_collage() {
    let first = build(five_images());
    let second = build(five_images());
    assert_same(&first, &second);
}

#[test]
fn canvas_never_shrinks_from_one_insertion_to_the_next() {
    let mut width = 0;
    let mut height = 0;
    for count in 1..=5 {
        let mut images = five_images();
        collage::builder::arrange(&mut images, PlacementOrder::Area);
        images.truncate(count);
        let collage = build(images);
        assert!(collage.width() >= width && collage.height() >= height);
        width = collage.width();
        height = collage.height();
    }
    assert!(width >= 12 && height >= 9);
}

#[test]
fn image_of_the_background_colour_is_taken_for_free_space() {
    let images = vec![
        Canvas::filled(3, 3, Color::border()),
        Canvas::filled(2, 2, Color::background()),
        Canvas::filled(2, 2, shade(3)),
    ];
    let collage = build(images);
    assert_eq!((collage.width(), collage.height()), (5, 3));
    for y in 0..2 {
        for x in 3..5 {
            assert_eq!(collage.pixel_at(x, y), shade(3));
        }
    }
    assert!(collage.width() * collage.height() < 9 + 4 + 4);
}
