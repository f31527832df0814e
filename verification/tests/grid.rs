use tracer::bits::get_reversed_bits;
use tracer::grid::{fft1dshift, fft2shift, flatten_grid, mirror_line, reorder_data, slicecore};

#[test]
fn reorder_applies_bit_reversal() {
    let rbits = get_reversed_bits(3, 8);
    let mut data: Vec<u32> = vec![10, 11, 12, 13, 14, 15, 16, 17];
    reorder_data(&mut data, &rbits);
    assert_eq!(data, vec![10, 14, 12, 16, 11, 15, 13, 17]);
}

#[test]
fn reorder_twice_restores_input() {
    let rbits = get_reversed_bits(4, 16);
    let original: Vec<f64> = (0..16).map(|i| i as f64 * 0.25 - 1.0).collect();
    let mut data = original.clone();
    reorder_data(&mut data, &rbits);
    reorder_data(&mut data, &rbits);
    assert_eq!(data, original);
}

#[test]
fn shift_1d_swaps_halves() {
    let q: Vec<f64> = vec![1.0, 2.0, 3.0, 4.0];
    assert_eq!(fft1dshift(&q), vec![3.0, 4.0, 1.0, 2.0]);
}

#[test]
fn shift_1d_twice_restores_line() {
    let q: Vec<i64> = vec![5, 6, 7, 8, 9, 10];
    assert_eq!(fft1dshift(&fft1dshift(&q)), q);
}

#[test]
fn shift_2d_swaps_quadrants() {
    let q: Vec<Vec<u32>> = vec![
        vec![1, 2, 3, 4],
        vec![5, 6, 7, 8],
        vec![9, 10, 11, 12],
        vec![13, 14, 15, 16],
    ];
    let t = fft2shift(&q);
    assert_eq!(
        t,
        vec![
            vec![11, 12, 9, 10],
            vec![15, 16, 13, 14],
            vec![3, 4, 1, 2],
            vec![7, 8, 5, 6],
        ]
    );
}

#[test]
fn shift_2d_centres_the_origin() {
    // The origin term of a transform moves to the grid centre.
    let mut q: Vec<Vec<f64>> = vec![vec![0.0; 4]; 4];
    q[0][0] = 9.0;
    let t = fft2shift(&q);
    assert_eq!(t[2][2], 9.0);
    assert_eq!(t[0][0], 0.0);
}

#[test]
fn slicecore_cuts_centre_block() {
    let data: Vec<Vec<u32>> = vec![
        vec![1, 2, 3, 4],
        vec![5, 6, 7, 8],
        vec![9, 10, 11, 12],
        vec![13, 14, 15, 16],
    ];
    let core = slicecore(&data, 2);
    assert_eq!(core, vec![vec![6, 7], vec![10, 11]]);
}

#[test]
fn slicecore_full_size_is_identity() {
    let data: Vec<Vec<i32>> = vec![vec![1, 2], vec![3, 4]];
    assert_eq!(slicecore(&data, 2), data);
}

#[test]
fn flatten_grid_is_row_major() {
    let data: Vec<Vec<f64>> = vec![vec![1.0, 2.0, 9.0], vec![3.0, 4.0, 9.0], vec![9.0; 3]];
    assert_eq!(flatten_grid(&data, 2), vec![1.0, 2.0, 3.0, 4.0]);
}

#[test]
fn mirror_line_is_symmetric() {
    let vals: Vec<f64> = vec![0.5, 0.25, 0.125, 0.0625];
    let out = mirror_line(&vals, 2);
    assert_eq!(out, vec![0.125, 0.25, 0.5, 0.25, 0.125]);
}

#[test]
fn mirror_line_zero_halfwidth() {
    let vals: Vec<u8> = vec![7, 8];
    assert_eq!(mirror_line(&vals, 0), vec![7]);
}
