use climg::otsu::{histogram, otsu_from_histogram, otsu_threshold, EMPTY_THRESHOLD, MAX_PIXELS};
use climg::raster::Raster;

fn raster(width: u32, height: u32, data: Vec<u8>) -> Raster {
    Raster::new(width, height, data).unwrap()
}

/// The same search in floating point, to compare with.
fn float_threshold(data: &[u8]) -> u8 {
    let mut hist = [0u32; 256];
    for v in data {
        hist[*v as usize] += 1;
    }
    let total = data.len() as u32;
    if total == 0 {
        return 128;
    }
    let mut sum_total: f64 = 0.0;
    for (i, &h) in hist.iter().enumerate() {
        sum_total += (i as f64) * (h as f64);
    }
    let mut sum_b: f64 = 0.0;
    let mut w_b: f64 = 0.0;
    let mut max_var: f64 = -1.0;
    let mut threshold: u8 = 0;
    for (t, &h) in hist.iter().enumerate() {
        w_b += h as f64;
        if w_b == 0.0 {
            continue;
        }
        let w_f = (total as f64) - w_b;
        if w_f == 0.0 {
            break;
        }
        sum_b += (t as f64) * (h as f64);
        let m_b = sum_b / w_b;
        let m_f = (sum_total - sum_b) / w_f;
        let var_between = w_b * w_f * (m_b - m_f) * (m_b - m_f);
        if var_between > max_var {
            max_var = var_between;
            threshold = t as u8;
        }
    }
    threshold
}

#[test]
fn raster_needs_one_sample_per_position() {
    assert!(Raster::new(2, 3, vec![0; 6]).is_some());
    assert!(Raster::new(2, 3, vec![0; 5]).is_none());
    assert!(Raster::new(2, 3, vec![0; 7]).is_none());
    assert!(Raster::new(0, 3, vec![]).is_some());
}

#[test]
fn raster_is_stored_row_by_row() {
    let r = raster(3, 2, vec![1, 2, 3, 4, 5, 6]);
    assert_eq!(r.get(0, 0), 1);
    assert_eq!(r.get(2, 0), 3);
    assert_eq!(r.get(0, 1), 4);
    assert_eq!(r.get(2, 1), 6);
}

#[test]
fn histogram_counts_each_intensity() {
    let h = histogram(&raster(3, 2, vec![7, 7, 0, 255, 7, 0]));
    assert_eq!(h[0], 2);
    assert_eq!(h[7], 3);
    assert_eq!(h[255], 1);
    assert_eq!(h.iter().sum::<u64>(), 6);
}

#[test]
fn empty_picture_gets_fixed_threshold() {
    assert_eq!(otsu_threshold(&raster(0, 0, vec![])), 128);
    assert_eq!(otsu_threshold(&raster(0, 5, vec![])), EMPTY_THRESHOLD);
    assert_eq!(otsu_from_histogram(&[0u64; 256]), Some(128));
}

#[test]
fn uniform_picture_gets_threshold_zero() {
    for v in [0u8, 1, 77, 128, 254, 255] {
        assert_eq!(otsu_threshold(&raster(4, 8, vec![v; 32])), 0);
    }
}

#[test]
fn two_levels_split_at_the_lower_one() {
    // every candidate from 10 to 199 separates the two levels equally well
    let mut data = vec![10u8; 5];
    data.extend(vec![200u8; 11]);
    assert_eq!(otsu_threshold(&raster(4, 4, data)), 10);
}

#[test]
fn three_levels_pick_the_greatest_variance() {
    // buckets: 0 -> 1, 100 -> 1, 200 -> 2; total 4, sum 500
    // t in 0..100:   wB 1, sumB 0:   (0*4 - 500*1)^2 / (1*3) = 83333.3
    // t in 100..200: wB 2, sumB 100: (100*4 - 500*2)^2 / (2*2) = 90000
    assert_eq!(otsu_threshold(&raster(2, 2, vec![0, 100, 200, 200])), 100);
    // buckets: 0 -> 2, 100 -> 1, 200 -> 1; total 4, sum 300
    // t in 0..100:   wB 2, sumB 0:   (0 - 300*2)^2 / (2*2) = 90000
    // t in 100..200: wB 3, sumB 100: (400 - 900)^2 / (3*1) = 83333.3
    assert_eq!(otsu_threshold(&raster(2, 2, vec![0, 0, 100, 200])), 0);
}

#[test]
fn equal_variances_keep_the_lowest_candidate() {
    // symmetric buckets: 0 -> 1, 100 -> 1, 200 -> 1; both splits give
    // (0*3 - 300*1)^2 / (1*2) = 45000 = (100*3 - 300*2)^2 / (2*1)
    assert_eq!(otsu_threshold(&raster(3, 1, vec![0, 100, 200])), 0);
    assert_eq!(otsu_threshold(&raster(3, 1, vec![200, 0, 100])), 0);
}

#[test]
fn same_histogram_gives_same_threshold() {
    let a = raster(4, 2, vec![9, 30, 30, 250, 9, 8, 77, 77]);
    let b = raster(2, 4, vec![77, 9, 250, 30, 8, 77, 30, 9]);
    let first = otsu_threshold(&a);
    assert_eq!(otsu_threshold(&a), first);
    assert_eq!(otsu_threshold(&b), first);
    assert_eq!(otsu_from_histogram(&histogram(&a)), Some(first));
}

#[test]
fn agrees_with_floating_point_search() {
    let mut state: u32 = 12345;
    for round in 0..40u32 {
        let width = 5 + round % 7;
        let height = 3 + round % 5;
        let mut data = Vec::new();
        for _ in 0..width * height {
            state = state.wrapping_mul(1664525).wrapping_add(1013904223);
            let v = (state >> 24) as u8;
            data.push(if round % 2 == 0 { v } else { v / 2 + (v % 3) * 40 });
        }
        let expected = float_threshold(&data);
        assert_eq!(otsu_threshold(&raster(width, height, data)), expected);
    }
}

#[test]
fn largest_histogram_is_searched_without_overflow() {
    let mut hist = [0u64; 256];
    hist[0] = MAX_PIXELS / 2;
    hist[255] = MAX_PIXELS / 2;
    assert_eq!(otsu_from_histogram(&hist), Some(0));
    let mut skewed = [0u64; 256];
    skewed[254] = 1;
    skewed[255] = MAX_PIXELS - 1;
    assert_eq!(otsu_from_histogram(&skewed), Some(254));
}

#[test]
fn histogram_with_too_many_samples_is_refused() {
    let mut hist = [0u64; 256];
    hist[3] = MAX_PIXELS;
    assert_eq!(otsu_from_histogram(&hist), Some(0));
    hist[200] = 1;
    assert_eq!(otsu_from_histogram(&hist), None);
    assert_eq!(otsu_from_histogram(&[u64::MAX; 256]), None);
}
