use fourier_slice::pipeline::{column_transforms, first_channel, row_transforms, run_stages};
use fourier_slice::remap::{center_rows, flat_position, half_swap_index, quadrant_swap, resample};
use fourier_slice::validate::{check_image, check_side, is_power_of_two, ImageError};
use std::f64::consts::PI;

#[derive(Clone, Copy, Debug, PartialEq)]
struct C(f64, f64);

fn butterfly(inverse: bool) -> impl Fn(C, C, usize, usize) -> (C, C) {
    move |lower: C, upper: C, j: usize, n: usize| {
        let angle = PI * 2. * j as f64 / n as f64;
        let sign = if inverse { -1. } else { 1. };
        let u = C(
            angle.cos() * upper.0 + angle.sin() * upper.1 * sign,
            angle.cos() * upper.1 - angle.sin() * upper.0 * sign,
        );
        (C(lower.0 + u.0, lower.1 + u.1), C(lower.0 - u.0, lower.1 - u.1))
    }
}

fn angular_coords(size: usize) -> Vec<(usize, usize)> {
    let mut v = Vec::new();
    for i in 0..size {
        for j in 0..size {
            let angle = PI * i as f64 / (size - 1) as f64;
            let x = (j as f64 - size as f64 * 0.5) * angle.cos() + size as f64 * 0.5;
            let y = (j as f64 - size as f64 * 0.5) * angle.sin() + size as f64 * 0.5;
            v.push((y as usize, x as usize));
        }
    }
    v
}

fn close(a: C, b: C) -> bool {
    (a.0 - b.0).abs() < 1e-9 && (a.1 - b.1).abs() < 1e-9
}

#[test]
fn powers_of_two() {
    assert!(!is_power_of_two(0));
    assert!(is_power_of_two(1));
    assert!(is_power_of_two(2));
    assert!(is_power_of_two(64));
    assert!(!is_power_of_two(6));
    assert!(!is_power_of_two(12));
    assert!(is_power_of_two(1 << 40));
}

#[test]
fn side_six_is_rejected() {
    assert_eq!(check_side(6), Err(ImageError::NotPowerOfTwo));
    assert_eq!(check_side(8), Ok(()));
}

#[test]
fn side_six_rejected_before_any_transform() {
    let grid = vec![C(0., 0.); 36];
    let coords = vec![(0usize, 0usize); 36];
    let r = run_stages(&grid, 6, &butterfly(false), &butterfly(true), &coords);
    assert!(matches!(r, Err(ImageError::NotPowerOfTwo)));
}

#[test]
fn image_errors() {
    assert_eq!(check_image(4, 4, false, true, 48), Err(ImageError::WrongColorType));
    assert_eq!(check_image(4, 8, true, true, 96), Err(ImageError::NotSquare));
    assert_eq!(check_image(4, 4, true, true, 47), Err(ImageError::WrongLength));
    assert_eq!(check_image(4, 4, true, false, 48), Err(ImageError::MultiFrame));
    assert_eq!(check_image(6, 6, true, true, 108), Err(ImageError::NotPowerOfTwo));
    assert_eq!(check_image(4, 4, true, true, 48), Ok(4));
}

#[test]
fn grid_length_and_coordinate_errors() {
    let grid = vec![C(0., 0.); 15];
    let coords = vec![(0usize, 0usize); 16];
    let r = run_stages(&grid, 4, &butterfly(false), &butterfly(true), &coords);
    assert!(matches!(r, Err(ImageError::WrongGridLength)));
    let grid = vec![C(0., 0.); 16];
    let mut coords = vec![(0usize, 0usize); 16];
    coords[7] = (4, 0);
    let r = run_stages(&grid, 4, &butterfly(false), &butterfly(true), &coords);
    assert!(matches!(r, Err(ImageError::SampleOutsideGrid)));
}

#[test]
fn first_channel_takes_red() {
    let pixels: Vec<u8> = (0..12).collect();
    assert_eq!(first_channel(&pixels, 2), vec![0, 3, 6, 9]);
}

#[test]
fn half_swap_values() {
    let got: Vec<usize> = (0..4).map(|k| half_swap_index(4, k)).collect();
    assert_eq!(got, vec![2, 3, 0, 1]);
    assert_eq!(half_swap_index(1, 0), 0);
}

#[test]
fn quadrant_swap_exact() {
    let grid: Vec<u32> = (0..16).collect();
    let r = quadrant_swap(&grid, 4);
    assert_eq!(r, vec![10, 11, 8, 9, 14, 15, 12, 13, 2, 3, 0, 1, 6, 7, 4, 5]);
}

#[test]
fn quadrant_swap_twice_is_identity() {
    for size in [2usize, 4, 8] {
        let grid: Vec<u32> = (0..(size * size) as u32).collect();
        assert_eq!(quadrant_swap(&quadrant_swap(&grid, size), size), grid);
    }
}

#[test]
fn center_rows_exact() {
    let grid: Vec<u32> = (0..16).collect();
    let r = center_rows(&grid, 4);
    assert_eq!(r, vec![2, 3, 0, 1, 6, 7, 4, 5, 10, 11, 8, 9, 14, 15, 12, 13]);
}

#[test]
fn resample_exact_and_out_of_grid() {
    let grid: Vec<u32> = (0..4).collect();
    let coords = vec![(1usize, 1usize), (0, 0), (0, 3), (1, 0)];
    assert_eq!(resample(&grid, 2, &coords), Some(vec![3, 0, 3, 2]));
    let coords = vec![(1usize, 1usize), (0, 0), (0, 4), (1, 0)];
    assert_eq!(resample(&grid, 2, &coords), None);
    let coords = vec![(0usize, 0usize); 3];
    assert_eq!(resample(&grid, 2, &coords), None);
    assert_eq!(flat_position(2, 4, 1, 1), Some(3));
    assert_eq!(flat_position(2, 4, 2, 0), None);
    assert_eq!(flat_position(2, 4, 0, usize::MAX), None);
}

#[test]
fn column_transform_layout() {
    // Column i holds [a, b]; its two-point transform is [a + b, a - b].
    let grid = vec![C(1., 0.), C(2., 0.), C(5., 0.), C(7., 0.)];
    let r = column_transforms(&grid, 2, &butterfly(false));
    let want = [C(6., 0.), C(9., 0.), C(-4., 0.), C(-5., 0.)];
    for k in 0..4 {
        assert!(close(r[k], want[k]));
    }
    let r = row_transforms(&grid, 2, &butterfly(false));
    let want = [C(3., 0.), C(-1., 0.), C(12., 0.), C(-2., 0.)];
    for k in 0..4 {
        assert!(close(r[k], want[k]));
    }
}

#[test]
fn uniform_gray_end_to_end() {
    let size = 4;
    let pixels = vec![128u8; 3 * size * size];
    assert_eq!(check_image(4, 4, true, true, pixels.len()), Ok(4));
    let samples = first_channel(&pixels, size);
    let grid: Vec<C> = samples.iter().map(|&s| C(s as f64 / 255., 0.)).collect();
    let c = 128. / 255.;
    for v in &grid {
        assert_eq!(*v, C(c, 0.));
    }
    let coords = angular_coords(size);
    let st = run_stages(&grid, size, &butterfly(false), &butterfly(true), &coords).unwrap();
    for i in 0..size {
        assert!(close(st.rows[i * size], C(4. * c, 0.)));
        for j in 1..size {
            assert!(close(st.rows[i * size + j], C(0., 0.)));
        }
    }
    let dc = C(16. * c, 0.);
    assert!(close(st.spectrum[0], dc));
    assert!(close(st.centered[2 * size + 2], dc));
    for i in 0..size {
        assert!(close(st.resampled[i * size + 2], dc));
        assert!(close(st.recentered[i * size], dc));
    }
    for j in 0..size {
        assert!(close(st.sinogram[j], dc));
    }
}
