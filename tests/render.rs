use mandelbrot::escape::escape_time_by;
use mandelbrot::bands::{partition_rows, Band};
use mandelbrot::render::{render, render_band, render_parallel};
use mandelbrot::shading::{shade, ESCAPE_LIMIT};
use num::Complex;

fn diagonal(col: usize, row: usize) -> Option<u32> {
    if col == row {
        None
    } else {
        Some((col + 10 * row) as u32)
    }
}

fn expected_diagonal(width: usize, height: usize) -> Vec<u8> {
    let mut v = Vec::new();
    for row in 0..height {
        for col in 0..width {
            v.push(if col == row { 0 } else { 255 - (col + 10 * row) as u8 });
        }
    }
    v
}

fn escape_time(c: Complex<f64>, limit: u32) -> Option<u32> {
    let zero = Complex { re: 0.0, im: 0.0 };
    escape_time_by(zero, &|z: Complex<f64>| z * z + c, &|z: Complex<f64>| z.norm_sqr() > 4.0, limit)
}

#[test]
fn shade_inside_set_is_dark() {
    assert_eq!(shade(None), 0);
}

#[test]
fn shade_counts_down_from_white() {
    assert_eq!(shade(Some(0)), 255);
    assert_eq!(shade(Some(1)), 254);
    assert_eq!(shade(Some(254)), 1);
    assert_eq!(shade(Some(255)), 0);
}

#[test]
fn shade_takes_count_as_byte() {
    assert_eq!(shade(Some(300)), 211);
    assert_eq!(shade(Some(256)), 255);
}

#[test]
fn escape_limit_is_255() {
    assert_eq!(ESCAPE_LIMIT, 255);
}

#[test]
fn partition_one_row_per_band() {
    let bands = partition_rows(4, 1);
    assert_eq!(
        bands,
        vec![
            Band { top: 0, rows: 1 },
            Band { top: 1, rows: 1 },
            Band { top: 2, rows: 1 },
            Band { top: 3, rows: 1 },
        ]
    );
}

#[test]
fn partition_last_band_shorter() {
    let bands = partition_rows(10, 3);
    assert_eq!(
        bands,
        vec![
            Band { top: 0, rows: 3 },
            Band { top: 3, rows: 3 },
            Band { top: 6, rows: 3 },
            Band { top: 9, rows: 1 },
        ]
    );
}

#[test]
fn partition_exact_multiple() {
    let bands = partition_rows(6, 3);
    assert_eq!(bands, vec![Band { top: 0, rows: 3 }, Band { top: 3, rows: 3 }]);
}

#[test]
fn partition_band_taller_than_image() {
    assert_eq!(partition_rows(4, 10), vec![Band { top: 0, rows: 4 }]);
}

#[test]
fn partition_of_no_rows_is_empty() {
    assert!(partition_rows(0, 3).is_empty());
}

#[test]
fn partition_covers_each_row_once() {
    for height in 0..40usize {
        for per in 1..9usize {
            let bands = partition_rows(height, per);
            let mut seen = vec![0u32; height];
            for b in &bands {
                assert!(b.rows > 0);
                for row in b.top..b.top + b.rows {
                    seen[row] += 1;
                }
            }
            assert!(seen.iter().all(|&n| n == 1));
        }
    }
}

#[test]
fn render_whole_image() {
    let mut pixels = vec![7u8; 12];
    render(&mut pixels, (4, 3), &diagonal);
    assert_eq!(pixels, expected_diagonal(4, 3));
    assert_eq!(pixels[1 * 4 + 2], 255 - 12);
}

#[test]
fn render_band_uses_image_rows() {
    let mut band = vec![0u8; 8];
    render_band(&mut band, 4, 1, &diagonal);
    let full = expected_diagonal(4, 3);
    assert_eq!(band, full[4..12].to_vec());
}

#[test]
fn render_empty_image() {
    let mut pixels: Vec<u8> = Vec::new();
    render(&mut pixels, (0, 5), &diagonal);
    assert!(pixels.is_empty());
}

#[test]
fn parallel_render_fills_every_pixel() {
    let white = |_c: usize, _r: usize| Some(0u32);
    let pixels = render_parallel((7, 5), 1, &white);
    assert_eq!(pixels, vec![255u8; 35]);
}

#[test]
fn parallel_render_matches_expected() {
    let pixels = render_parallel((4, 3), 1, &diagonal);
    assert_eq!(pixels, expected_diagonal(4, 3));
}

#[test]
fn parallel_render_same_for_any_band_size() {
    let mut sequential = vec![0u8; 9 * 13];
    render(&mut sequential, (9, 13), &diagonal);
    for per in 1..16usize {
        assert_eq!(render_parallel((9, 13), per, &diagonal), sequential);
    }
}

#[test]
fn parallel_render_empty_bounds() {
    assert!(render_parallel((0, 4), 1, &diagonal).is_empty());
    assert!(render_parallel((4, 0), 2, &diagonal).is_empty());
}

#[test]
fn mandelbrot_center_and_far_corner() {
    let (w, h) = (5usize, 5usize);
    let classify = |col: usize, row: usize| {
        let c = Complex {
            re: -2.5 + col as f64 * 5.0 / w as f64,
            im: 2.5 - row as f64 * 5.0 / h as f64,
        };
        escape_time(c, ESCAPE_LIMIT)
    };
    let pixels = render_parallel((w, h), 2, &classify);
    // pixel (2, 2) is the origin, inside the set
    assert_eq!(pixels[2 * w + 2], 0);
    // pixel (0, 0) is -2.5 + 2.5i, beyond radius 2: escapes on the first step
    assert_eq!(pixels[0], 255);
}

#[test]
fn escape_by_doubling_orbit() {
    let double = |x: u64| x * 2;
    let big = |x: u64| x > 100;
    // 2, 4, 8, 16, 32, 64, 128: the seventh point, step 6, is outside
    assert_eq!(escape_time_by(1u64, &double, &big, 255), Some(6));
    assert_eq!(escape_time_by(1u64, &double, &big, 7), Some(6));
    assert_eq!(escape_time_by(1u64, &double, &big, 6), None);
}

#[test]
fn escape_with_zero_limit_is_none() {
    let double = |x: u64| x * 2;
    let big = |x: u64| x > 1;
    assert_eq!(escape_time_by(1u64, &double, &big, 0), None);
}

#[test]
fn escape_same_step_under_larger_limits() {
    // 0.5+0.5i, 0.5+1i, -0.25+1.5i, -1.6875-0.25i, then about 3.29+1.34i
    let c = Complex { re: 0.5, im: 0.5 };
    let n = 4u32;
    assert_eq!(escape_time(c, 255), Some(n));
    for limit in n + 1..300 {
        assert_eq!(escape_time(c, limit), Some(n));
    }
}

#[test]
fn escape_origin_never_leaves() {
    let zero = Complex { re: 0.0, im: 0.0 };
    for limit in 1..50u32 {
        assert_eq!(escape_time(zero, limit), None);
    }
}

#[test]
fn escape_far_point_leaves_at_once() {
    assert_eq!(escape_time(Complex { re: 2.5, im: 0.0 }, 255), Some(0));
    assert_eq!(escape_time(Complex { re: -1.5, im: 1.5 }, 255), Some(0));
}
