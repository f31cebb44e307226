use imgops::convolve::{convolve, sum_filter_matrix, window_sums};
use imgops::edge::{detect_edge, is_edge};
use imgops::morphology::{dilate, erode};
use imgops::rank::{count_level, find_median, find_mode, gray_levels, sort_levels};
use imgops::window::{read_window, weight_at};
use imgops::{
    apply_average_filter_mask, average_filter, border_detection, dilation, erosion,
    gaussian_filter, image_to_pixel_matrix, median_filter, mode_filter, new_canvas,
    pixel_matrix_to_image, threshold, Color, FilterMatrix, Image, PixelMatrix, WindowFilter,
};

const ZERO: FilterMatrix = [[0, 0, 0], [0, 0, 0], [0, 0, 0]];

fn white() -> Color {
    Color::new(255, 255, 255)
}

fn grays(width: usize, height: usize, level: impl Fn(usize, usize) -> u8) -> PixelMatrix {
    let mut m: PixelMatrix = Vec::new();
    for x in 0..width {
        let mut column = Vec::new();
        for y in 0..height {
            column.push(Color::gray(level(x, y)));
        }
        m.push(column);
    }
    m
}

fn image_of(m: &PixelMatrix) -> Image {
    let width = m.len() as u32;
    let height = if m.is_empty() { 0 } else { m[0].len() as u32 };
    pixel_matrix_to_image(m, width, height)
}

fn noisy(width: usize, height: usize) -> PixelMatrix {
    let mut m: PixelMatrix = Vec::new();
    for x in 0..width {
        let mut column = Vec::new();
        for y in 0..height {
            let r = ((x * 37 + y * 91 + 13) % 256) as u8;
            let g = ((x * 101 + y * 7 + 200) % 256) as u8;
            let b = ((x * x * 29 + y * 53) % 256) as u8;
            column.push(Color::new(r, g, b));
        }
        m.push(column);
    }
    m
}

fn window_of_levels(levels: [u8; 9]) -> Vec<Color> {
    levels.iter().map(|v| Color::gray(*v)).collect()
}

fn is_interior(width: usize, height: usize, x: usize, y: usize) -> bool {
    x >= 1 && x + 1 < width && y >= 1 && y + 1 < height
}

#[test]
fn average_filter_on_a_black_image() {
    let mut img = Image::new(5, 5).unwrap();
    let mut canvas = new_canvas(5, 5);
    average_filter(&mut img, &mut canvas);
    for x in 0..5usize {
        for y in 0..5usize {
            let expected = if is_interior(5, 5, x, y) { Color::black() } else { white() };
            assert_eq!(canvas[x][y], expected, "at ({x}, {y})");
        }
    }
    assert_eq!(image_to_pixel_matrix(&img), grays(5, 5, |_, _| 0));
}

#[test]
fn average_filter_divides_by_nine_and_truncates() {
    let mut m = grays(3, 3, |_, _| 0);
    m[1][1] = Color::new(10, 100, 255);
    m[0][0] = Color::new(0, 7, 255);
    m[2][1] = Color::new(7, 1, 255);
    let mut img = image_of(&m);
    let mut canvas = new_canvas(3, 3);
    average_filter(&mut img, &mut canvas);
    assert_eq!(canvas[1][1], Color::new(1, 12, 85));
    assert_eq!(canvas[0][0], white());
    assert_eq!(canvas[2][1], white());
}

#[test]
fn average_filter_reads_only_the_source() {
    let m = noisy(6, 5);
    let mut img = image_of(&m);
    let mut canvas = new_canvas(6, 5);
    average_filter(&mut img, &mut canvas);
    for x in 1..5usize {
        for y in 1..4usize {
            let mut sums = [0u32; 3];
            for i in 0..3usize {
                for j in 0..3usize {
                    let c = m[x + i - 1][y + j - 1];
                    sums[0] += c.r as u32;
                    sums[1] += c.g as u32;
                    sums[2] += c.b as u32;
                }
            }
            let expected =
                Color::new((sums[0] / 9) as u8, (sums[1] / 9) as u8, (sums[2] / 9) as u8);
            assert_eq!(canvas[x][y], expected, "at ({x}, {y})");
        }
    }
}

#[test]
fn gaussian_filter_weighs_the_window() {
    let mut m = grays(3, 3, |_, _| 0);
    m[0][0] = Color::new(16, 0, 0);
    m[1][0] = Color::new(16, 0, 0);
    m[1][1] = Color::new(16, 32, 0);
    m[2][2] = Color::new(0, 0, 255);
    let mut img = image_of(&m);
    gaussian_filter(&mut img);
    let out = image_to_pixel_matrix(&img);
    assert_eq!(out[1][1], Color::new(7, 8, 15));
    for x in 0..3usize {
        for y in 0..3usize {
            if (x, y) != (1, 1) {
                assert_eq!(out[x][y], m[x][y]);
            }
        }
    }
}

#[test]
fn gaussian_filter_reads_what_it_has_already_written() {
    let mut m = grays(4, 3, |_, _| 0);
    m[1][1] = Color::gray(160);
    let mut img = image_of(&m);
    gaussian_filter(&mut img);
    let out = image_to_pixel_matrix(&img);
    assert_eq!(out[1][1], Color::gray(40));
    assert_eq!(out[2][1], Color::gray(5));
}

#[test]
fn gaussian_filter_sweeps_down_a_column_first() {
    let mut m = grays(3, 4, |_, _| 0);
    m[1][1] = Color::gray(160);
    let mut img = image_of(&m);
    gaussian_filter(&mut img);
    let out = image_to_pixel_matrix(&img);
    assert_eq!(out[1][1], Color::gray(40));
    assert_eq!(out[1][2], Color::gray(5));
}

#[test]
fn mode_filter_takes_the_most_frequent_level() {
    let mut m = grays(3, 3, |_, _| 50);
    m[0][0] = Color::new(1, 2, 3);
    m[1][1] = Color::new(40, 50, 60);
    m[2][2] = Color::new(9, 9, 9);
    let mut img = image_of(&m);
    let mut canvas = new_canvas(3, 3);
    mode_filter(&mut img, &mut canvas);
    assert_eq!(canvas[1][1], Color::gray(50));
    assert_eq!(canvas[0][0], white());
    assert_eq!(image_to_pixel_matrix(&img), m);
}

#[test]
fn find_mode_breaks_ties_by_scan_order() {
    let mut win = window_of_levels([10, 20, 20, 10, 30, 30, 5, 5, 7]);
    win[3] = Color::new(0, 10, 20);
    assert_eq!(find_mode(&win), Color::gray(10));
    let mut other = window_of_levels([7, 20, 20, 10, 30, 30, 5, 5, 10]);
    other[1] = Color::new(19, 20, 21);
    assert_eq!(find_mode(&other), Color::new(19, 20, 21));
}

#[test]
fn find_mode_returns_the_first_sample_of_the_winning_level() {
    let mut win = window_of_levels([1, 2, 3, 4, 5, 6, 9, 9, 9]);
    win[6] = Color::new(8, 9, 10);
    win[7] = Color::new(9, 9, 9);
    win[8] = Color::new(10, 9, 8);
    assert_eq!(find_mode(&win), Color::new(8, 9, 10));
    let distinct = window_of_levels([1, 2, 3, 4, 5, 6, 7, 8, 9]);
    assert_eq!(find_mode(&distinct), Color::gray(1));
}

#[test]
fn find_median_takes_the_fifth_level() {
    let win = window_of_levels([9, 1, 8, 2, 7, 3, 6, 4, 5]);
    assert_eq!(find_median(&win), Color::gray(5));
    let skewed = window_of_levels([0, 0, 0, 0, 255, 255, 255, 255, 255]);
    assert_eq!(find_median(&skewed), Color::gray(255));
    let low = window_of_levels([0, 0, 0, 0, 0, 255, 255, 255, 255]);
    assert_eq!(find_median(&low), Color::gray(0));
}

#[test]
fn find_median_returns_the_first_sample_of_the_median_level() {
    let mut win = window_of_levels([1, 1, 1, 1, 50, 50, 90, 90, 90]);
    win[4] = Color::new(40, 50, 60);
    win[5] = Color::new(60, 50, 40);
    assert_eq!(find_median(&win), Color::new(40, 50, 60));
}

#[test]
fn median_filter_keeps_a_uniform_image() {
    let m: PixelMatrix = vec![vec![Color::new(12, 200, 77); 5]; 6];
    let mut img = image_of(&m);
    median_filter(&mut img);
    assert_eq!(image_to_pixel_matrix(&img), m);
}

#[test]
fn median_filter_removes_a_speck() {
    let mut m = grays(3, 3, |_, _| 30);
    m[1][1] = Color::gray(250);
    let mut img = image_of(&m);
    median_filter(&mut img);
    assert_eq!(image_to_pixel_matrix(&img), grays(3, 3, |_, _| 30));
}

#[test]
fn median_filter_reads_what_it_has_already_written() {
    let mut m = grays(3, 4, |_, _| 0);
    m[0][0] = Color::gray(9);
    m[1][0] = Color::gray(9);
    m[2][0] = Color::gray(9);
    m[0][1] = Color::gray(9);
    m[1][1] = Color::gray(200);
    m[1][2] = Color::gray(9);
    m[2][2] = Color::gray(9);
    m[0][3] = Color::gray(9);
    m[1][3] = Color::gray(9);
    let mut img = image_of(&m);
    median_filter(&mut img);
    let out = image_to_pixel_matrix(&img);
    assert_eq!(out[1][1], Color::gray(9));
    assert_eq!(out[1][2], Color::gray(9));
    let mut untouched = image_of(&m);
    let win = read_window(&untouched, 1, 2);
    assert_eq!(find_median(&win), Color::gray(9));
    assert!(untouched.set(1, 1, Color::gray(200)));
    assert_eq!(untouched.get(1, 1).unwrap(), Color::gray(200));
}

#[test]
fn border_detection_marks_a_difference_at_threshold_zero() {
    let mut m = grays(3, 3, |_, _| 100);
    m[2][1] = Color::new(101, 99, 0);
    let img = image_of(&m);
    let mut canvas = new_canvas(3, 3);
    border_detection(&img, &mut canvas, 0);
    assert_eq!(canvas[1][1], white());
    assert_eq!(canvas[0][1], white());
}

#[test]
fn border_detection_on_a_uniform_image_is_black_inside() {
    let m: PixelMatrix = vec![vec![Color::new(3, 60, 250); 4]; 4];
    let img = image_of(&m);
    let mut canvas = new_canvas(4, 4);
    border_detection(&img, &mut canvas, 0);
    for x in 0..4usize {
        for y in 0..4usize {
            let expected = if is_interior(4, 4, x, y) { Color::black() } else { white() };
            assert_eq!(canvas[x][y], expected, "at ({x}, {y})");
        }
    }
}

#[test]
fn border_detection_compares_the_rounded_magnitude_per_channel() {
    let mut m = grays(3, 3, |_, _| 0);
    m[2][1] = Color::new(1, 5, 200);
    m[1][2] = Color::new(0, 0, 20);
    let img = image_of(&m);
    let mut canvas = new_canvas(3, 3);
    border_detection(&img, &mut canvas, 0);
    assert_eq!(canvas[1][1], Color::new(255, 255, 255));
    border_detection(&img, &mut canvas, 1);
    assert_eq!(canvas[1][1], Color::new(0, 255, 255));
    border_detection(&img, &mut canvas, 6);
    assert_eq!(canvas[1][1], Color::new(0, 255, 255));
    border_detection(&img, &mut canvas, 7);
    assert_eq!(canvas[1][1], Color::new(0, 0, 255));
    border_detection(&img, &mut canvas, 253);
    assert_eq!(canvas[1][1], Color::new(0, 0, 255));
    border_detection(&img, &mut canvas, 254);
    assert_eq!(canvas[1][1], Color::new(0, 0, 0));
    border_detection(&img, &mut canvas, u32::MAX);
    assert_eq!(canvas[1][1], Color::new(0, 0, 0));
}

#[test]
fn border_detection_ignores_the_sign_of_the_difference() {
    let mut m = grays(3, 3, |_, _| 0);
    m[1][2] = Color::gray(5);
    let img = image_of(&m);
    let mut canvas = new_canvas(3, 3);
    border_detection(&img, &mut canvas, 6);
    assert_eq!(canvas[1][1], white());
    border_detection(&img, &mut canvas, 7);
    assert_eq!(canvas[1][1], Color::black());
}

#[test]
fn is_edge_at_the_limits() {
    assert!(!is_edge(0, 0));
    assert!(is_edge(1, 0));
    assert!(is_edge(-1, 0));
    assert!(!is_edge(1, 1));
    assert!(is_edge(255, 359));
    assert!(!is_edge(255, 360));
    assert!(is_edge(-255, 359));
    assert!(!is_edge(255, u32::MAX));
}

#[test]
fn detect_edge_on_a_window() {
    let mut win = window_of_levels([0; 9]);
    win[7] = Color::new(10, 0, 3);
    win[5] = Color::new(10, 4, 0);
    assert_eq!(detect_edge(&win, 0), Color::new(0, 255, 255));
    assert_eq!(detect_edge(&win, 4), Color::new(0, 255, 0));
    assert_eq!(detect_edge(&win, 5), Color::new(0, 0, 0));
}

#[test]
fn threshold_binarizes_every_pixel() {
    let m = noisy(7, 5);
    let img = image_of(&m);
    let mut canvas = new_canvas(7, 5);
    threshold(&img, &mut canvas, 127);
    for x in 0..7usize {
        for y in 0..5usize {
            let c = m[x][y];
            let level = (c.r as u32 + c.g as u32 + c.b as u32) / 3;
            let expected = if level > 127 { white() } else { Color::black() };
            assert_eq!(canvas[x][y], expected, "at ({x}, {y})");
            assert!(canvas[x][y] == white() || canvas[x][y] == Color::black());
        }
    }
}

#[test]
fn threshold_is_strict_at_the_cutoff() {
    let m: PixelMatrix = vec![vec![Color::gray(99), Color::gray(100), Color::gray(101)]];
    let img = image_of(&m);
    let mut canvas = new_canvas(1, 3);
    threshold(&img, &mut canvas, 100);
    assert_eq!(canvas, vec![vec![Color::black(), Color::black(), white()]]);
    threshold(&img, &mut canvas, 255);
    assert_eq!(canvas, vec![vec![Color::black(); 3]]);
    threshold(&img, &mut canvas, 0);
    assert_eq!(canvas, vec![vec![white(); 3]]);
}

#[test]
fn threshold_leaves_the_rest_of_a_larger_canvas() {
    let img = Image::new(2, 2).unwrap();
    let mut canvas = new_canvas(3, 3);
    threshold(&img, &mut canvas, 10);
    for x in 0..3usize {
        for y in 0..3usize {
            let expected = if x < 2 && y < 2 { Color::black() } else { white() };
            assert_eq!(canvas[x][y], expected);
        }
    }
}

#[test]
fn dilation_then_erosion_keeps_a_uniform_gray_image() {
    let m = grays(6, 6, |_, _| 77);
    let img = image_of(&m);
    let mut first = new_canvas(6, 6);
    dilation(&img, &mut first, &ZERO);
    let mid = pixel_matrix_to_image(&first, 6, 6);
    let mut second = new_canvas(6, 6);
    erosion(&mid, &mut second, &ZERO);
    for x in 1..5usize {
        for y in 1..5usize {
            assert_eq!(second[x][y], m[x][y], "at ({x}, {y})");
        }
    }
}

#[test]
fn dilation_is_at_least_erosion_on_a_noisy_image() {
    let m = noisy(8, 7);
    let img = image_of(&m);
    let mut up = new_canvas(8, 7);
    let mut down = new_canvas(8, 7);
    dilation(&img, &mut up, &ZERO);
    erosion(&img, &mut down, &ZERO);
    for x in 1..7usize {
        for y in 1..6usize {
            assert!(up[x][y].r >= down[x][y].r, "at ({x}, {y})");
            assert_eq!(up[x][y], Color::gray(up[x][y].r));
            assert_eq!(down[x][y], Color::gray(down[x][y].r));
        }
    }
}

#[test]
fn dilation_takes_the_largest_level_of_the_window() {
    let m = grays(3, 3, |x, y| (10 * x + y) as u8);
    let img = image_of(&m);
    let mut canvas = new_canvas(3, 3);
    dilation(&img, &mut canvas, &ZERO);
    assert_eq!(canvas[1][1], Color::gray(22));
    erosion(&img, &mut canvas, &ZERO);
    assert_eq!(canvas[1][1], Color::gray(0));
}

#[test]
fn dilate_adds_the_kernel_and_clamps() {
    let win = window_of_levels([10, 20, 30, 40, 50, 60, 70, 80, 90]);
    let mask: FilterMatrix = [[100, 0, 0], [0, 0, 0], [0, 0, -50]];
    assert_eq!(dilate(&win, &mask), Color::gray(110));
    let high: FilterMatrix = [[0, 0, 0], [0, 300, 0], [0, 0, 0]];
    assert_eq!(dilate(&win, &high), Color::gray(255));
    let low: FilterMatrix = [[-500; 3]; 3];
    assert_eq!(dilate(&win, &low), Color::gray(0));
    let extreme: FilterMatrix = [[i32::MAX; 3]; 3];
    assert_eq!(dilate(&win, &extreme), Color::gray(255));
}

#[test]
fn erode_subtracts_the_kernel_and_clamps() {
    let win = window_of_levels([10, 20, 30, 40, 50, 60, 70, 80, 90]);
    let mask: FilterMatrix = [[-100, 0, 0], [0, 0, 0], [0, 0, 85]];
    assert_eq!(erode(&win, &mask), Color::gray(5));
    let high: FilterMatrix = [[0, 0, 0], [0, 300, 0], [0, 0, 0]];
    assert_eq!(erode(&win, &high), Color::gray(0));
    let low: FilterMatrix = [[-500; 3]; 3];
    assert_eq!(erode(&win, &low), Color::gray(255));
    let extreme: FilterMatrix = [[i32::MIN; 3]; 3];
    assert_eq!(erode(&win, &extreme), Color::gray(255));
}

#[test]
fn filters_leave_the_canvas_when_the_image_has_no_interior() {
    let m = noisy(2, 5);
    let mut img = image_of(&m);
    let mut canvas = new_canvas(2, 5);
    average_filter(&mut img, &mut canvas);
    mode_filter(&mut img, &mut canvas);
    border_detection(&img, &mut canvas, 0);
    dilation(&img, &mut canvas, &ZERO);
    erosion(&img, &mut canvas, &ZERO);
    assert_eq!(canvas, new_canvas(2, 5));
    gaussian_filter(&mut img);
    median_filter(&mut img);
    assert_eq!(image_to_pixel_matrix(&img), m);
}

#[test]
fn filters_accept_an_empty_image_and_an_empty_canvas() {
    let mut img = Image::new(0, 0).unwrap();
    let mut canvas = new_canvas(0, 0);
    average_filter(&mut img, &mut canvas);
    threshold(&img, &mut canvas, 0);
    gaussian_filter(&mut img);
    assert!(canvas.is_empty());
}

#[test]
fn filters_write_the_interior_only() {
    let m = noisy(5, 4);
    let img = image_of(&m);
    let mut canvas = new_canvas(5, 4);
    dilation(&img, &mut canvas, &ZERO);
    for x in 0..5usize {
        for y in 0..4usize {
            if !is_interior(5, 4, x, y) {
                assert_eq!(canvas[x][y], white(), "at ({x}, {y})");
            } else {
                assert_ne!(canvas[x][y], white(), "at ({x}, {y})");
            }
        }
    }
}

#[test]
fn read_window_follows_the_scan_order() {
    let m = grays(3, 3, |x, y| (10 * x + y) as u8);
    let img = image_of(&m);
    let win = read_window(&img, 1, 1);
    assert_eq!(win, window_of_levels([0, 1, 2, 10, 11, 12, 20, 21, 22]));
}

#[test]
fn weights_are_read_row_by_row() {
    let k: FilterMatrix = [[1, 2, 3], [4, 5, 6], [7, 8, 9]];
    for n in 0..9usize {
        assert_eq!(weight_at(&k, n), n as i32 + 1);
    }
    assert_eq!(sum_filter_matrix(&k), 45);
    assert_eq!(sum_filter_matrix(&[[i32::MAX; 3]; 3]), 9 * i32::MAX as i64);
    assert_eq!(sum_filter_matrix(&[[i32::MIN; 3]; 3]), 9 * i32::MIN as i64);
}

#[test]
fn window_sums_weigh_each_channel() {
    let mut win = window_of_levels([0; 9]);
    win[0] = Color::new(1, 2, 3);
    win[8] = Color::new(10, 20, 30);
    let k: FilterMatrix = [[2, 0, 0], [0, 0, 0], [0, 0, -1]];
    assert_eq!(window_sums(&win, &k), (-8, -16, -24));
}

#[test]
fn convolve_truncates_toward_zero_and_clamps() {
    let mut win = window_of_levels([0; 9]);
    win[4] = Color::new(7, 200, 100);
    let k: FilterMatrix = [[0, 0, 0], [0, 1, 0], [0, 0, 0]];
    assert_eq!(convolve(&win, &k, 2), Color::new(3, 100, 50));
    assert_eq!(convolve(&win, &k, -2), Color::new(0, 0, 0));
    let double: FilterMatrix = [[0, 0, 0], [0, 2, 0], [0, 0, 0]];
    assert_eq!(convolve(&win, &double, 1), Color::new(14, 255, 200));
    let minus: FilterMatrix = [[0, 0, 0], [0, -1, 0], [0, 0, 0]];
    assert_eq!(convolve(&win, &minus, -2), Color::new(3, 100, 50));
    assert_eq!(convolve(&win, &minus, 2), Color::new(0, 0, 0));
}

#[test]
fn apply_average_filter_mask_at_a_coordinate() {
    let m = grays(4, 4, |x, y| (16 * x + y) as u8);
    let img = image_of(&m);
    let ones: FilterMatrix = [[1; 3]; 3];
    assert_eq!(apply_average_filter_mask(&img, ones, 1, 1, 9), Color::gray(17));
    assert_eq!(apply_average_filter_mask(&img, ones, 2, 2, 9), Color::gray(34));
    assert_eq!(apply_average_filter_mask(&img, ones, 2, 2, 1), Color::gray(255));
}

#[test]
fn window_filter_dispatches() {
    let win = window_of_levels([9, 1, 8, 2, 7, 3, 6, 4, 5]);
    assert_eq!(WindowFilter::Median.apply(&win), Color::gray(5));
    assert_eq!(WindowFilter::Mode.apply(&win), Color::gray(9));
    assert_eq!(WindowFilter::Dilation { mask: ZERO }.apply(&win), Color::gray(9));
    assert_eq!(WindowFilter::Erosion { mask: ZERO }.apply(&win), Color::gray(1));
    assert_eq!(
        WindowFilter::Weighted { kernel: [[1; 3]; 3], divisor: 9 }.apply(&win),
        Color::gray(5)
    );
    assert_eq!(WindowFilter::Edge { threshold: 0 }.apply(&win), white());
}

#[test]
fn levels_are_counted_and_sorted() {
    let win = window_of_levels([9, 1, 8, 1, 7, 1, 6, 4, 5]);
    let levels = gray_levels(&win);
    assert_eq!(levels, vec![9, 1, 8, 1, 7, 1, 6, 4, 5]);
    assert_eq!(count_level(&levels, 1), 3);
    assert_eq!(count_level(&levels, 2), 0);
    assert_eq!(sort_levels(&levels), vec![1, 1, 1, 4, 5, 6, 7, 8, 9]);
    assert_eq!(sort_levels(&Vec::new()), Vec::<u8>::new());
}

#[test]
fn weighted_filters_keep_a_uniform_image() {
    let m: PixelMatrix = vec![vec![Color::new(200, 3, 77); 4]; 5];
    let mut img = image_of(&m);
    let mut canvas = new_canvas(5, 4);
    average_filter(&mut img, &mut canvas);
    for x in 1..4usize {
        for y in 1..3usize {
            assert_eq!(canvas[x][y], Color::new(200, 3, 77), "at ({x}, {y})");
        }
    }
    gaussian_filter(&mut img);
    assert_eq!(image_to_pixel_matrix(&img), m);
}

#[test]
fn mode_filter_keeps_a_uniform_image() {
    let m: PixelMatrix = vec![vec![Color::new(1, 2, 250); 3]; 3];
    let mut img = image_of(&m);
    let mut canvas = new_canvas(3, 3);
    mode_filter(&mut img, &mut canvas);
    assert_eq!(canvas[1][1], Color::new(1, 2, 250));
}

#[test]
fn in_place_filters_leave_the_border() {
    let m = noisy(6, 6);
    let mut img = image_of(&m);
    gaussian_filter(&mut img);
    median_filter(&mut img);
    let out = image_to_pixel_matrix(&img);
    for x in 0..6usize {
        for y in 0..6usize {
            if !is_interior(6, 6, x, y) {
                assert_eq!(out[x][y], m[x][y], "at ({x}, {y})");
            }
        }
    }
}
