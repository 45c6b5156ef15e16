use cluster_estimator::estimator::ECluster;
use cluster_estimator::model::EstimateError;

fn points(rows: &[&[i16]]) -> Vec<Vec<i16>> {
    rows.iter().map(|r| r.to_vec()).collect()
}

/// The eight-candidate scenario: three dense groups and two outliers.
fn mid_centers() -> Vec<Vec<i16>> {
    points(&[
        &[1, 3, 4],
        &[2, 5, 6],
        &[75, 34, 12],
        &[234, 42, 122],
        &[4, 2, 1],
        &[99, 12, 40],
        &[57, 27, 11],
        &[20, 30, 20],
    ])
}

#[test]
fn estimated_cluster_centers() {
    let estimated = ECluster::estimate(&mid_centers(), 2, 0.19f64.to_bits(), 0.2f64.to_bits())
        .unwrap();

    assert_eq!(
        estimated,
        points(&[&[1, 3, 4], &[57, 27, 11], &[75, 34, 12], &[20, 30, 20]])
    );
}

#[test]
fn equal_points_distance_zero() {
    let zh1: Vec<i16> = vec![1, 1, 1];
    let zh2: Vec<i16> = vec![1, 1, 1];

    assert_eq!(ECluster::euclidean_distance(&zh1, &zh2), 0f64.to_bits());
}

#[test]
fn basis_points_distance_one() {
    let zh1: Vec<i16> = vec![0, 0, 0, 0];
    let zh2: Vec<i16> = vec![1, 1, 1, 1];

    assert_eq!(ECluster::euclidean_distance(&zh1, &zh2), 2f64.to_bits());
}

#[test]
fn random_vectors_distance_test() {
    let zh1: Vec<i16> = vec![5, 5];
    let zh2: Vec<i16> = vec![2, 1];

    assert_eq!(ECluster::euclidean_distance(&zh1, &zh2), 5f64.to_bits());
}

#[test]
fn widened_subtraction_survives_extreme_coordinates() {
    // Each coordinate difference is 65535, outside the 16-bit range, so the
    // subtraction must be widened before squaring.
    let p: Vec<i16> = vec![-32768, -32768, -32768];
    let q: Vec<i16> = vec![32767, 32767, 32767];
    let expected = ((3u64 * 65535 * 65535) as f64).sqrt().to_bits();

    assert_eq!(ECluster::euclidean_distance(&p, &q), expected);
}

#[test]
fn distance_is_symmetric() {
    let p: Vec<i16> = vec![-32768, 32767, 12, -5];
    let q: Vec<i16> = vec![32767, -32768, -12, 5];

    assert_eq!(
        ECluster::euclidean_distance(&p, &q),
        ECluster::euclidean_distance(&q, &p)
    );
}

#[test]
fn unit_corner_distance_is_sqrt_of_dimension() {
    let zeros: Vec<i16> = vec![0; 5];
    let ones: Vec<i16> = vec![1; 5];

    assert_eq!(
        ECluster::euclidean_distance(&zeros, &ones),
        5f64.sqrt().to_bits()
    );
}

#[test]
fn output_row_count_stays_within_bounds() {
    let estimated = ECluster::estimate(&mid_centers(), 2, 0.19f64.to_bits(), 0.2f64.to_bits())
        .unwrap();

    assert!(1 <= estimated.len() && estimated.len() <= 101);
}

fn reference_distance(p: &[i16], q: &[i16]) -> f64 {
    let mut sum: f64 = 0.0;
    for k in 0..p.len() {
        let d = (p[k] as i64 - q[k] as i64) as f64;
        sum += d * d;
    }
    sum.sqrt()
}

#[test]
fn first_row_is_the_highest_raw_potential_candidate() {
    let candidates = mid_centers();
    let alpha = 0.19f64;

    // The suppression-free reference scan, recomputed independently in f64:
    // strict `>` against a running maximum that starts at 0.0, first wins.
    let mut best: Option<usize> = None;
    let mut best_potential = 0.0f64;
    for (i, x) in candidates.iter().enumerate() {
        let mut potential = 0.0f64;
        for y in candidates.iter() {
            potential += (-1.0 * alpha * reference_distance(x, y)).exp();
        }
        if potential > best_potential {
            best_potential = potential;
            best = Some(i);
        }
    }

    let estimated = ECluster::estimate(&candidates, 2, alpha.to_bits(), 0.2f64.to_bits())
        .unwrap();
    assert_eq!(estimated[0], candidates[best.unwrap()]);
}

#[test]
fn estimate_is_deterministic() {
    let first = ECluster::estimate(&mid_centers(), 2, 0.19f64.to_bits(), 0.2f64.to_bits());
    let second = ECluster::estimate(&mid_centers(), 2, 0.19f64.to_bits(), 0.2f64.to_bits());

    assert_eq!(first, second);
}

#[test]
fn edge_divisor_zero_keeps_only_the_first_peak() {
    // An infinite threshold stops the loop right after the unconditional
    // first acceptance.
    let estimated = ECluster::estimate(&mid_centers(), 0, 0.19f64.to_bits(), 0.2f64.to_bits())
        .unwrap();

    assert_eq!(estimated, points(&[&[1, 3, 4]]));
}

#[test]
fn single_candidate_is_its_own_peak() {
    let single = points(&[&[5, 5, 5]]);
    let estimated = ECluster::estimate(&single, 2, 0.19f64.to_bits(), 0.2f64.to_bits()).unwrap();

    assert_eq!(estimated, single);
}

#[test]
fn empty_candidate_set_is_rejected() {
    let empty: Vec<Vec<i16>> = Vec::new();
    let r = ECluster::estimate(&empty, 2, 0.19f64.to_bits(), 0.2f64.to_bits());

    assert_eq!(r, Err(EstimateError::EmptyInput));
}

#[test]
fn nan_coefficient_finds_no_peak() {
    // Every net score is NaN, so no candidate rises above the 0.0 baseline.
    let r = ECluster::estimate(&mid_centers(), 2, f64::NAN.to_bits(), 0.2f64.to_bits());

    assert_eq!(r, Err(EstimateError::NoPeak));
}

fn bits_matrix(rows: &[&[f64]]) -> Vec<Vec<u64>> {
    rows.iter()
        .map(|r| r.iter().map(|x| x.to_bits()).collect())
        .collect()
}

#[test]
fn influence_run_stops_at_the_threshold() {
    // Hand-picked influence values: candidate 0 has potential 2.0 and fully
    // suppresses both candidates once accepted, so the second round's best
    // net score is 0.0 and the run keeps one center.
    let candidates = points(&[&[1], &[2]]);
    let pot = bits_matrix(&[&[2.0, 0.0], &[0.0, 1.0]]);
    let bias = bits_matrix(&[&[1.0, 1.0], &[1.0, 1.0]]);

    let r = ECluster::estimate_from_influence(&candidates, &pot, &bias, 1).unwrap();
    assert_eq!(r, points(&[&[1]]));
}

#[test]
fn influence_run_with_divisor_zero_keeps_one_center() {
    // The threshold becomes +infinity, which exceeds the second round's
    // finite peak, so only the unconditional first center survives even
    // though candidate 1's net score never drops.
    let candidates = points(&[&[1], &[2]]);
    let pot = bits_matrix(&[&[2.0, 0.0], &[0.0, 1.0]]);
    let bias = bits_matrix(&[&[1.0, 0.0], &[0.0, 0.0]]);

    let r = ECluster::estimate_from_influence(&candidates, &pot, &bias, 0).unwrap();
    assert_eq!(r, points(&[&[1]]));
}

#[test]
fn underflowing_threshold_fails_rather_than_accepting_a_placeholder() {
    // The first potential is the smallest positive double, so the threshold
    // underflows to 0.0; the second round finds no peak above the baseline
    // and the threshold does not stop the run, so it fails explicitly.
    let candidates = points(&[&[7]]);
    let pot = bits_matrix(&[&[5e-324]]);
    let bias = bits_matrix(&[&[1.0]]);

    let r = ECluster::estimate_from_influence(&candidates, &pot, &bias, 255);
    assert_eq!(r, Err(EstimateError::NoPeak));
}

#[test]
fn influence_run_accepts_a_second_surviving_peak() {
    // Candidate 0 (potential 2.0) only half-suppresses candidate 1
    // (potential 1.0), whose net score 0.5 stays above the threshold
    // 2.0 / 255, so both are accepted in order.
    let candidates = points(&[&[1], &[2]]);
    let pot = bits_matrix(&[&[2.0, 0.0], &[0.0, 1.0]]);
    let bias = bits_matrix(&[&[1.0, 0.25], &[1.0, 1.0]]);

    let r = ECluster::estimate_from_influence(&candidates, &pot, &bias, 255).unwrap();
    assert_eq!(r, points(&[&[1], &[2]]));
}
