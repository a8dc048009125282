use geocluster::dbscan::cluster;
use geocluster::point::Point;
use geocluster::summary::{cluster_count, get_cluster_of, noise_count};

// Coordinates are microdegrees; the radius is micro-kilometres.
const KM: u64 = 1_000_000;

fn deg(d: f64) -> i64 {
    (d * 1_000_000.0).round() as i64
}

fn pts(coords: &[(f64, f64)]) -> Vec<Point> {
    coords.iter().map(|&(la, lo)| Point::new(deg(la), deg(lo))).collect()
}

#[test]
fn three_close_points_form_one_cluster() {
    // (0,0), (0,0.001), (0,0.002) degrees, epsilon 1 km, min_samples 2.
    let points = pts(&[(0.0, 0.0), (0.0, 0.001), (0.0, 0.002)]);
    let labels = cluster(&points, KM, 2);
    assert_eq!(labels, vec![0, 0, 0]);
    assert_eq!(cluster_count(&labels), 1);
    assert_eq!(noise_count(&labels), 0);
}

#[test]
fn two_distant_points_are_noise() {
    // (0,0) and (50,50) degrees are far beyond a 1 km radius.
    let points = pts(&[(0.0, 0.0), (50.0, 50.0)]);
    let labels = cluster(&points, KM, 2);
    assert_eq!(labels, vec![-1, -1]);
    assert_eq!(cluster_count(&labels), 0);
    assert_eq!(noise_count(&labels), 2);
}

#[test]
fn min_samples_one_leaves_no_noise() {
    let points = pts(&[(0.0, 0.0), (0.0, 0.001), (0.0, 0.002), (50.0, 50.0)]);
    let labels = cluster(&points, KM, 1);
    assert_eq!(labels.len(), 4);
    assert!(labels.iter().all(|&l| l >= 0));
    assert_eq!(noise_count(&labels), 0);
    // Ids are contiguous from 0.
    let k = cluster_count(&labels);
    assert_eq!(k, 2);
    for c in 0..k {
        assert!(labels.iter().any(|&l| l == c));
    }
    assert_eq!(labels, vec![0, 0, 0, 1]);
}

#[test]
fn empty_input_yields_empty_output() {
    let points: Vec<Point> = Vec::new();
    let labels = cluster(&points, KM, 5);
    assert_eq!(labels.len(), 0);
    assert_eq!(cluster_count(&labels), 0);
    assert_eq!(noise_count(&labels), 0);
}

#[test]
fn single_point_is_noise() {
    let points = pts(&[(12.0, 34.0)]);
    let labels = cluster(&points, KM, 1);
    assert_eq!(labels, vec![-1]);
    assert_eq!(cluster_count(&labels), 0);
    assert_eq!(noise_count(&labels), 1);
}

#[test]
fn rerun_is_bit_identical() {
    let points = pts(&[(0.0, 0.0), (0.0, 0.001), (0.0, 0.009), (50.0, 50.0), (50.0, 50.001)]);
    let first = cluster(&points, KM, 2);
    let second = cluster(&points, KM, 2);
    assert_eq!(first, second);
}

#[test]
fn raising_min_samples_never_lowers_noise() {
    let points = pts(&[(0.0, 0.0), (0.0, 0.001), (0.0, 0.002), (50.0, 50.0)]);
    let mut previous = 0;
    for m in 1..=5 {
        let labels = cluster(&points, KM, m);
        let noise = noise_count(&labels);
        assert!(noise >= previous);
        previous = noise;
    }
}

#[test]
fn tiny_epsilon_makes_everything_noise() {
    // Radius 0.001 km = 1000 micro-kilometres is below every inter-point
    // distance here.
    let points = pts(&[(0.0, 0.0), (0.0, 0.001), (0.0, 0.002)]);
    let labels = cluster(&points, 1000, 2);
    assert_eq!(labels, vec![-1, -1, -1]);
    // ... except with min_samples = 1, where every point is its own core.
    let labels_one = cluster(&points, 1000, 1);
    assert_eq!(labels_one, vec![0, 1, 2]);
}

#[test]
fn chain_of_core_points_grows_one_cluster() {
    // Adjacent points are 0.009 degrees (under 1 km) apart; the ends are
    // further apart than the radius but joined through the middle.
    let points = pts(&[(0.0, 0.0), (0.0, 0.009), (0.0, 0.018)]);
    let labels = cluster(&points, KM, 2);
    assert_eq!(labels, vec![0, 0, 0]);
}

#[test]
fn border_points_join_the_core_cluster() {
    // Only the middle point has 3 neighbours; the ends join its cluster
    // as border points, one of them after first being marked noise.
    let points = pts(&[(0.0, 0.0), (0.0, 0.009), (0.0, 0.018)]);
    let labels = cluster(&points, KM, 3);
    assert_eq!(labels, vec![0, 0, 0]);
    assert_eq!(noise_count(&labels), 0);
}

#[test]
fn two_separate_clusters_get_contiguous_ids() {
    let points = pts(&[
        (0.0, 0.0),
        (0.0, 0.001),
        (50.0, 50.0),
        (50.0, 50.001),
        (-30.0, 20.0),
    ]);
    let labels = cluster(&points, KM, 2);
    assert_eq!(labels, vec![0, 0, 1, 1, -1]);
    assert_eq!(cluster_count(&labels), 2);
    assert_eq!(noise_count(&labels), 1);
}

#[test]
fn border_point_between_two_clusters_joins_the_first() {
    // Two groups of four core points; the point at 0.007 degrees is a
    // border point of both (within 0.5 km of each nearest core) but not
    // core itself with min_samples 4.  The first cluster claims it.
    let points: Vec<Point> = [0, 1000, 2000, 3000, 7000, 11000, 12000, 13000, 14000]
        .iter()
        .map(|&lo| Point::new(0, lo))
        .collect();
    let labels = cluster(&points, 500_000, 4);
    assert_eq!(labels, vec![0, 0, 0, 0, 0, 1, 1, 1, 1]);
}

#[test]
fn get_cluster_of_reads_the_label() {
    let points = pts(&[(0.0, 0.0), (0.0, 0.001), (50.0, 50.0)]);
    let labels = cluster(&points, KM, 2);
    assert_eq!(get_cluster_of(&labels, 0), 0);
    assert_eq!(get_cluster_of(&labels, 1), 0);
    assert_eq!(get_cluster_of(&labels, 2), -1);
}

#[test]
fn summary_counts_match_formulas() {
    let labels: Vec<i64> = vec![-1, 2, 0, 1, -1, 2];
    assert_eq!(cluster_count(&labels), 3);
    assert_eq!(noise_count(&labels), 2);
    let all_noise: Vec<i64> = vec![-1, -1];
    assert_eq!(cluster_count(&all_noise), 0);
    let empty: Vec<i64> = Vec::new();
    assert_eq!(cluster_count(&empty), 0);
    assert_eq!(noise_count(&empty), 0);
}
