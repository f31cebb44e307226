use imgops::{
    brightness, contrast, grayscale, image_to_pixel_matrix, negative, pixel_matrix_to_image,
    transform_light, Color, Image, PixelMatrix, PointOp,
};

fn sample_image() -> Image {
    let m: PixelMatrix = vec![
        vec![Color::new(0, 0, 0), Color::new(10, 20, 31)],
        vec![Color::new(255, 255, 255), Color::new(100, 150, 200)],
    ];
    pixel_matrix_to_image(&m, 2, 2)
}

#[test]
fn grayscale_averages_the_channels() {
    let mut img = sample_image();
    grayscale(&mut img);
    let expected: PixelMatrix = vec![
        vec![Color::new(0, 0, 0), Color::new(20, 20, 20)],
        vec![Color::new(255, 255, 255), Color::new(150, 150, 150)],
    ];
    assert_eq!(image_to_pixel_matrix(&img), expected);
}

#[test]
fn negative_inverts_every_channel() {
    let mut img = sample_image();
    negative(&mut img);
    let expected: PixelMatrix = vec![
        vec![Color::new(255, 255, 255), Color::new(245, 235, 224)],
        vec![Color::new(0, 0, 0), Color::new(155, 105, 55)],
    ];
    assert_eq!(image_to_pixel_matrix(&img), expected);
}

#[test]
fn negative_twice_is_the_identity() {
    let mut img = sample_image();
    negative(&mut img);
    negative(&mut img);
    assert_eq!(image_to_pixel_matrix(&img), image_to_pixel_matrix(&sample_image()));
}

#[test]
fn brightness_shifts_and_clamps() {
    let mut img = sample_image();
    brightness(&mut img, 60);
    let expected: PixelMatrix = vec![
        vec![Color::new(60, 60, 60), Color::new(70, 80, 91)],
        vec![Color::new(255, 255, 255), Color::new(160, 210, 255)],
    ];
    assert_eq!(image_to_pixel_matrix(&img), expected);
    let mut dark = sample_image();
    brightness(&mut dark, -120);
    let expected_dark: PixelMatrix = vec![
        vec![Color::new(0, 0, 0), Color::new(0, 0, 0)],
        vec![Color::new(135, 135, 135), Color::new(0, 30, 80)],
    ];
    assert_eq!(image_to_pixel_matrix(&dark), expected_dark);
}

#[test]
fn brightness_at_the_limits_of_its_argument() {
    let mut img = sample_image();
    brightness(&mut img, i32::MAX);
    assert!(image_to_pixel_matrix(&img).iter().flatten().all(|c| *c == Color::white()));
    brightness(&mut img, i32::MIN);
    assert!(image_to_pixel_matrix(&img).iter().flatten().all(|c| *c == Color::black()));
}

#[test]
fn contrast_multiplies_rounds_down_and_clamps() {
    let mut img = sample_image();
    contrast(&mut img, 3, 2);
    let expected: PixelMatrix = vec![
        vec![Color::new(0, 0, 0), Color::new(15, 30, 46)],
        vec![Color::new(255, 255, 255), Color::new(150, 225, 255)],
    ];
    assert_eq!(image_to_pixel_matrix(&img), expected);
}

#[test]
fn contrast_below_zero_gives_black() {
    let mut img = sample_image();
    contrast(&mut img, -1, 1);
    assert!(image_to_pixel_matrix(&img).iter().flatten().all(|c| *c == Color::black()));
}

#[test]
fn contrast_of_one_is_the_identity() {
    let mut img = sample_image();
    contrast(&mut img, 7, 7);
    assert_eq!(image_to_pixel_matrix(&img), image_to_pixel_matrix(&sample_image()));
}

#[test]
fn transform_light_exact_values() {
    assert_eq!(transform_light(1, 1, 100, 0), 100);
    assert_eq!(transform_light(1, 2, 101, 0), 50);
    assert_eq!(transform_light(1, 2, 101, 3), 53);
    assert_eq!(transform_light(5, 2, 101, 0), 252);
    assert_eq!(transform_light(5, 2, 103, 0), 255);
    assert_eq!(transform_light(-1, 2, 1, 1), 0);
    assert_eq!(transform_light(-1, 2, 1, 2), 1);
    assert_eq!(transform_light(i32::MAX, 1, 255, i32::MIN), 255);
    assert_eq!(transform_light(i32::MIN, 1, 255, i32::MAX), 0);
    assert_eq!(transform_light(0, u32::MAX, 255, 256), 255);
}

#[test]
fn point_operations_on_one_sample() {
    let c = Color::new(10, 20, 31);
    assert_eq!(PointOp::Grayscale.apply(c), Color::new(20, 20, 20));
    assert_eq!(PointOp::Negative.apply(c), Color::new(245, 235, 224));
    assert_eq!(
        PointOp::Light { contrast: 2, unit: 1, brightness: -5 }.apply(c),
        Color::new(15, 35, 57)
    );
}

#[test]
fn point_operations_keep_an_empty_image() {
    let mut img = Image::new(0, 0).unwrap();
    grayscale(&mut img);
    negative(&mut img);
    assert_eq!(img.width(), 0);
    assert_eq!(img.height(), 0);
}
