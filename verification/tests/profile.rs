use tracer::profile::{bin_ray_hits, mirror_data_array};

#[test]
fn mirror_two_point_profile() {
    // Mirroring [0, 1] / [5, 7]: the x line becomes [-1, 0, 1] and the
    // y values [7, 5, 7], with the origin kept once.
    let xs: Vec<f64> = vec![0.0, 1.0];
    let negs: Vec<f64> = xs.iter().map(|x| -x).collect();
    let ys: Vec<f64> = vec![5.0, 7.0];
    let (xdata, ydata) = mirror_data_array(&xs, &negs, &ys);
    assert_eq!(xdata, vec![-1.0, 0.0, 1.0]);
    assert_eq!(ydata, vec![7.0, 5.0, 7.0]);
}

#[test]
fn mirror_longer_profile_is_symmetric() {
    let xs: Vec<f64> = vec![0.0, 0.5, 1.0, 1.5];
    let negs: Vec<f64> = xs.iter().map(|x| -x).collect();
    let ys: Vec<f64> = vec![1.0, 0.8, 0.3, 0.1];
    let (xdata, ydata) = mirror_data_array(&xs, &negs, &ys);
    assert_eq!(xdata.len(), 7);
    assert_eq!(ydata.len(), 7);
    for d in 0..4 {
        assert_eq!(ydata[3 - d], ydata[3 + d]);
    }
    assert_eq!(xdata, vec![-1.5, -1.0, -0.5, 0.0, 0.5, 1.0, 1.5]);
    assert_eq!(ydata, vec![0.1, 0.3, 0.8, 1.0, 0.8, 0.3, 0.1]);
}

#[test]
fn mirror_single_point() {
    let xs: Vec<f64> = vec![0.0];
    let negs: Vec<f64> = vec![0.0];
    let ys: Vec<f64> = vec![2.5];
    let (xdata, ydata) = mirror_data_array(&xs, &negs, &ys);
    assert_eq!(xdata, vec![0.0]);
    assert_eq!(ydata, vec![2.5]);
}

#[test]
fn bins_count_hits_exactly() {
    let cells: Vec<(i64, i64)> = vec![(0, 0), (1, 2), (1, 2), (2, 1), (1, 2)];
    let (counts, errors) = bin_ray_hits(&cells, 3);
    assert_eq!(errors, 0);
    assert_eq!(counts.len(), 3);
    for row in &counts {
        assert_eq!(row.len(), 3);
    }
    assert_eq!(counts[0][0], 1);
    assert_eq!(counts[1][2], 3);
    assert_eq!(counts[2][1], 1);
    assert_eq!(counts[0][1], 0);
    assert_eq!(counts[2][2], 0);
}

#[test]
fn bins_tally_out_of_range_hits() {
    // A hit outside the histogram is counted as an error, not dropped.
    let cells: Vec<(i64, i64)> = vec![(-1, 0), (0, 0), (3, 3), (2, 7), (1, 1)];
    let (counts, errors) = bin_ray_hits(&cells, 3);
    assert_eq!(errors, 3);
    assert_eq!(counts[0][0], 1);
    assert_eq!(counts[1][1], 1);
}

#[test]
fn bins_empty_input() {
    let cells: Vec<(i64, i64)> = vec![];
    let (counts, errors) = bin_ray_hits(&cells, 2);
    assert_eq!(errors, 0);
    assert_eq!(counts, vec![vec![0, 0], vec![0, 0]]);
}

#[test]
fn bins_zero_bins_everything_overflows() {
    let cells: Vec<(i64, i64)> = vec![(0, 0), (1, 1)];
    let (counts, errors) = bin_ray_hits(&cells, 0);
    assert_eq!(errors, 2);
    assert!(counts.is_empty());
}
