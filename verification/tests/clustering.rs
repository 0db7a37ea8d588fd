use kmeans::kmeans_capped;
use kmeans::kmeans_seeded;
use kmeans::try_kmeans;
use kmeans::KmeansError;
use kmeans::types::Cluster;

fn example_points_u8() -> Vec<(u8, u8)> {
    vec![
        (1u8, 2u8),
        (1, 3),
        (2, 2),
        (2, 3),
        (2, 4),
        (3, 1),
        (3, 2),
        (3, 3),
        (3, 4),
        (4, 1),
        (4, 2),
        (4, 3),
        (4, 4),
        (5, 2),
        (5, 3),
        (6, 5),
        (6, 6),
        (6, 7),
        (7, 5),
        (7, 6),
        (7, 7),
        (7, 8),
        (8, 4),
        (8, 5),
        (8, 6),
        (8, 7),
        (8, 8),
        (9, 5),
        (9, 6),
        (9, 7),
        (9, 8),
        (10, 6),
        (10, 7),
    ]
}

#[test]
fn int_clustering() {
    let points = example_points_u8();
    let clusters = kmeans_seeded(42, 2, points);
    let centroids = Cluster::centroids(&clusters);
    assert!(centroids.contains(&(3, 2)));
    assert!(centroids.contains(&(7, 6)));
}

#[test]
fn partition_completeness() {
    let points = example_points_u8();
    let clusters = kmeans_seeded(7, 3, points.clone());
    assert_eq!(clusters.len(), 3);
    let mut collected: Vec<(u8, u8)> = Vec::new();
    for c in &clusters {
        collected.extend(c.points.iter().copied());
    }
    collected.sort();
    let mut expected = points;
    expected.sort();
    assert_eq!(collected, expected);
}

#[test]
fn cluster_count_matches_k() {
    let points = example_points_u8();
    for k in 1..6usize {
        let clusters = kmeans_seeded(11, k, points.clone());
        assert_eq!(clusters.len(), k);
    }
}

#[test]
fn determinism_same_seed() {
    let points = example_points_u8();
    let a = kmeans_seeded(123, 4, points.clone());
    let b = kmeans_seeded(123, 4, points);
    assert_eq!(a.len(), b.len());
    for (x, y) in a.iter().zip(b.iter()) {
        assert_eq!(x.centroid, y.centroid);
        assert_eq!(x.points, y.points);
    }
}

#[test]
fn one_point_per_cluster_when_k_is_len() {
    let points: Vec<(u8, u8)> = vec![(0, 0), (10, 0), (0, 10), (10, 10), (5, 5)];
    let clusters = kmeans_seeded(9, 5, points);
    assert_eq!(clusters.len(), 5);
    for c in &clusters {
        assert_eq!(c.points.len(), 1);
        assert_eq!(c.points[0], c.centroid);
    }
}

#[test]
fn single_cluster_holds_all_points() {
    let points = example_points_u8();
    let clusters = kmeans_seeded(5, 1, points.clone());
    assert_eq!(clusters.len(), 1);
    assert_eq!(clusters[0].points, points);
    assert_eq!(clusters[0].centroid, (5, 4));
}

#[test]
fn capped_rounds_still_partition() {
    let points = example_points_u8();
    let clusters = kmeans_capped(3, 2, 0, points.clone());
    assert_eq!(clusters.len(), 2);
    let mut collected: Vec<(u8, u8)> = Vec::new();
    for c in &clusters {
        collected.extend(c.points.iter().copied());
    }
    collected.sort();
    let mut expected = points.clone();
    expected.sort();
    assert_eq!(collected, expected);
    let cap = points.len() as u64 * 10 + 10;
    let generous = kmeans_capped(42, 2, cap, points.clone());
    let reference = kmeans_seeded(42, 2, points);
    for (x, y) in generous.iter().zip(reference.iter()) {
        assert_eq!(x.centroid, y.centroid);
        assert_eq!(x.points, y.points);
    }
}

#[test]
fn zero_k_rejected() {
    let r = try_kmeans(0, vec![(1u8, 1u8)]);
    assert!(matches!(r, Err(KmeansError::InvalidArgument)));
}

#[test]
fn oversized_k_rejected() {
    let r = try_kmeans(3, vec![(1u8, 1u8), (2, 2)]);
    assert!(matches!(r, Err(KmeansError::InvalidArgument)));
}

#[test]
fn empty_input_rejected() {
    let empty: Vec<(u8, u8)> = Vec::new();
    let r = try_kmeans(1, empty);
    assert!(matches!(r, Err(KmeansError::InvalidArgument)));
}

#[test]
fn valid_arguments_accepted() {
    let points: Vec<(u8, u8)> = vec![(0, 0), (0, 1), (9, 9), (9, 8)];
    let r = try_kmeans(2, points);
    match r {
        Ok(clusters) => assert_eq!(clusters.len(), 2),
        Err(_) => panic!("valid arguments were rejected"),
    }
}
