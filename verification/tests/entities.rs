use kmeans::types::Cluster;
use kmeans::types::IntermediateCluster;

#[test]
fn cluster_new_is_memberless() {
    let c = Cluster::new(&(3u8, 4u8));
    assert_eq!(c.centroid, (3, 4));
    assert!(c.points.is_empty());
}

#[test]
fn intermediate_cluster_new_is_memberless() {
    let c = IntermediateCluster::new(&(3u8, 4u8));
    assert_eq!(c.centroid, (3, 4));
    assert!(c.point_indices.is_empty());
}

#[test]
fn from_intermediate_resolves_indices() {
    let mut inter = IntermediateCluster::new(&(1u8, 1u8));
    inter.point_indices = vec![2, 0];
    let points: Vec<(u8, u8)> = vec![(9, 9), (8, 8), (7, 7)];
    let c = Cluster::from_intermediate(&inter, &points);
    assert_eq!(c.centroid, (1, 1));
    assert_eq!(c.points, vec![(7, 7), (9, 9)]);
}

#[test]
fn recalculate_centroid_takes_the_mean() {
    let mut c = Cluster::new(&(0u8, 0u8));
    c.points = vec![(1, 2), (3, 4)];
    c.recalculate_centroid();
    assert_eq!(c.centroid, (2, 3));
    assert_eq!(c.points, vec![(1, 2), (3, 4)]);
}

#[test]
fn recalculate_centroid_of_memberless_cluster_keeps_it() {
    let mut c = Cluster::new(&(5u8, 6u8));
    c.recalculate_centroid();
    assert_eq!(c.centroid, (5, 6));
}

#[test]
fn centroids_lists_in_order() {
    let cs: Vec<Cluster<(u8, u8)>> =
        vec![Cluster::new(&(1, 1)), Cluster::new(&(2, 2)), Cluster::new(&(3, 3))];
    assert_eq!(Cluster::centroids(&cs), vec![(1, 1), (2, 2), (3, 3)]);
}
