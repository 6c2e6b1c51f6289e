use mandelbrot::bands::row_bands;
use mandelbrot::canvas::Canvas;
use mandelbrot::config::{check_canvas, check_settings, ConfigError};
use mandelbrot::raster::Color;

fn gradient() -> colorgrad::Gradient {
    colorgrad::CustomGradient::new().domain(&[0.0, 1.0]).build().unwrap()
}

fn grey(v: u8) -> Color {
    Color { r: v, g: v, b: v }
}

fn ramp(n: usize) -> Vec<Color> {
    (0..n).map(|i| Color { r: i as u8, g: (2 * i) as u8, b: (3 * i) as u8 }).collect()
}

#[test]
fn settings_accepted() {
    assert_eq!(check_settings(20, 10, 250, 2), Ok(()));
    assert_eq!(check_settings(1, 1, 1, 1), Ok(()));
}

#[test]
fn zero_width_rejected() {
    assert_eq!(check_settings(0, 10, 250, 2), Err(ConfigError::EmptyCanvas));
}

#[test]
fn zero_height_rejected() {
    assert_eq!(check_settings(10, 0, 250, 2), Err(ConfigError::EmptyCanvas));
}

#[test]
fn zero_iterations_rejected() {
    assert_eq!(check_settings(10, 10, 0, 2), Err(ConfigError::ZeroIterations));
}

#[test]
fn zero_bound_rejected() {
    assert_eq!(check_settings(10, 10, 250, 0), Err(ConfigError::ZeroBound));
    assert_eq!(check_settings(10, 10, 0, 0), Err(ConfigError::ZeroIterations));
}

#[test]
fn palette_kept_through_painting() {
    let mut c = Canvas::new(2, 2, gradient()).unwrap();
    let before = c.palette().at(0.5).rgba_u8();
    assert!(c.paint_rows(0, &ramp(4)));
    assert_eq!(c.palette().at(0.5).rgba_u8(), before);
    assert_eq!(c.palette().domain(), (0.0, 1.0));
}

#[test]
fn banded_render_ignores_prior_contents() {
    let (w, h) = (3u32, 4u32);
    let colors = ramp((w * h) as usize);
    let mut fresh = Canvas::new(w, h, gradient()).unwrap();
    let mut used = Canvas::new(w, h, gradient()).unwrap();
    assert!(used.paint_rows(0, &vec![grey(200); (w * h) as usize]));
    for c in [&mut fresh, &mut used] {
        for &(lo, hi) in row_bands(h, 2).iter() {
            let part = colors[(lo * w) as usize..(hi * w) as usize].to_vec();
            assert!(c.paint_rows(lo, &part));
        }
    }
    assert_eq!(fresh.to_rgb_bytes(), used.to_rgb_bytes());
}

#[test]
fn canvas_error_comes_before_iteration_error() {
    assert_eq!(check_settings(0, 0, 0, 0), Err(ConfigError::EmptyCanvas));
}

#[test]
fn oversized_canvas_rejected() {
    assert_eq!(check_canvas(u32::MAX, u32::MAX), Err(ConfigError::CanvasTooLarge));
    assert!(Canvas::new(u32::MAX, u32::MAX, gradient()).is_err());
}

#[test]
fn new_canvas_is_black() {
    let c = Canvas::new(3, 2, gradient()).unwrap();
    assert_eq!(c.width(), 3);
    assert_eq!(c.height(), 2);
    for y in 0..2 {
        for x in 0..3 {
            assert_eq!(c.pixel(x, y), grey(0));
        }
    }
    assert_eq!(c.to_rgb_bytes(), vec![0u8; 18]);
}

#[test]
fn empty_canvas_rejected() {
    assert_eq!(Canvas::new(0, 5, gradient()).err(), Some(ConfigError::EmptyCanvas));
    assert_eq!(Canvas::new(5, 0, gradient()).err(), Some(ConfigError::EmptyCanvas));
}

#[test]
fn paint_whole_grid_row_major() {
    let mut c = Canvas::new(3, 2, gradient()).unwrap();
    let colors = ramp(6);
    assert!(c.paint_rows(0, &colors));
    assert_eq!(c.pixel(0, 0), colors[0]);
    assert_eq!(c.pixel(2, 0), colors[2]);
    assert_eq!(c.pixel(0, 1), colors[3]);
    assert_eq!(c.pixel(2, 1), Color { r: 5, g: 10, b: 15 });
}

#[test]
fn paint_one_band_keeps_other_rows() {
    let mut c = Canvas::new(2, 3, gradient()).unwrap();
    assert!(c.paint_rows(1, &vec![grey(7), grey(8)]));
    assert_eq!(c.pixel(0, 0), grey(0));
    assert_eq!(c.pixel(0, 1), grey(7));
    assert_eq!(c.pixel(1, 1), grey(8));
    assert_eq!(c.pixel(1, 2), grey(0));
}

#[test]
fn partial_row_refused() {
    let mut c = Canvas::new(2, 2, gradient()).unwrap();
    assert!(!c.paint_rows(0, &vec![grey(9)]));
    assert_eq!(c.pixel(0, 0), grey(0));
}

#[test]
fn band_past_bottom_refused() {
    let mut c = Canvas::new(2, 2, gradient()).unwrap();
    assert!(!c.paint_rows(1, &vec![grey(9); 4]));
    assert!(!c.paint_rows(3, &vec![]));
    assert!(c.paint_rows(2, &vec![]));
    assert_eq!(c.to_rgb_bytes(), vec![0u8; 12]);
}

#[test]
fn rgb_bytes_interleave_channels() {
    let mut c = Canvas::new(2, 1, gradient()).unwrap();
    assert!(c.paint_rows(0, &vec![Color { r: 1, g: 2, b: 3 }, Color { r: 4, g: 5, b: 6 }]));
    assert_eq!(c.to_rgb_bytes(), vec![1, 2, 3, 4, 5, 6]);
}

#[test]
fn repainting_gives_identical_bytes() {
    let colors = ramp(12);
    let mut a = Canvas::new(4, 3, gradient()).unwrap();
    assert!(a.paint_rows(0, &colors));
    let first = a.to_rgb_bytes();
    assert!(a.paint_rows(0, &colors));
    let mut b = Canvas::new(4, 3, gradient()).unwrap();
    assert!(b.paint_rows(0, &colors));
    assert_eq!(a.to_rgb_bytes(), first);
    assert_eq!(b.to_rgb_bytes(), first);
}

#[test]
fn bands_in_any_order_match_single_pass() {
    let (w, h) = (5u32, 7u32);
    let colors = ramp((w * h) as usize);
    let mut whole = Canvas::new(w, h, gradient()).unwrap();
    assert!(whole.paint_rows(0, &colors));
    let mut banded = Canvas::new(w, h, gradient()).unwrap();
    let bands = row_bands(h, 3);
    for &(lo, hi) in bands.iter().rev() {
        let part = colors[(lo * w) as usize..(hi * w) as usize].to_vec();
        assert!(banded.paint_rows(lo, &part));
    }
    assert_eq!(banded.to_rgb_bytes(), whole.to_rgb_bytes());
}

#[test]
fn bands_of_ten_rows_for_four_workers() {
    assert_eq!(row_bands(10, 4), vec![(0, 3), (3, 6), (6, 9), (9, 10)]);
}

#[test]
fn bands_fewer_than_workers() {
    assert_eq!(row_bands(10, 6), vec![(0, 2), (2, 4), (4, 6), (6, 8), (8, 10)]);
    assert_eq!(row_bands(3, 8), vec![(0, 1), (1, 2), (2, 3)]);
}

#[test]
fn bands_single_worker_and_no_rows() {
    assert_eq!(row_bands(5, 0), vec![(0, 5)]);
    assert_eq!(row_bands(5, 1), vec![(0, 5)]);
    assert_eq!(row_bands(0, 4), vec![]);
}
