//! The point capability contract and the cluster entities.

use vstd::prelude::*;

verus! {

/// A coordinate representation usable by the clustering core.
///
/// Distances are exchanged as exact squared Euclidean distances: squaring is
/// monotone, so comparing squared distances orders pairs of points exactly
/// as the real distances would, with no rounding. `mean_spec` is the
/// representative center of a non-empty sequence of points; integer
/// adapters truncate the coordinate-wise arithmetic mean to the
/// coordinate's representation.
pub trait DataPoint: Sized {
    /// The exact squared distance between two points.
    spec fn dist_sq_spec(self, other: Self) -> int;

    /// The representative center of a non-empty sequence of points.
    spec fn mean_spec(ps: Seq<Self>) -> Self;

    /// Squared distances are non-negative and fit the machine word.
    proof fn lemma_dist_sq_bounds(a: Self, b: Self)
        ensures
            0 <= a.dist_sq_spec(b) <= u64::MAX as int,
    ;

    /// Distance does not depend on the order of its arguments.
    proof fn lemma_dist_sq_symmetric(a: Self, b: Self)
        ensures
            a.dist_sq_spec(b) == b.dist_sq_spec(a),
    ;

    /// Distance vanishes exactly on equal points.
    proof fn lemma_dist_sq_zero(a: Self, b: Self)
        ensures
            a.dist_sq_spec(b) == 0 <==> a == b,
    ;

    /// The center of a single point is that point.
    proof fn lemma_mean_singleton(p: Self)
        ensures
            Self::mean_spec(seq![p]) == p,
    ;

    /// Computes the squared distance between two points.
    fn dist_sq(&self, other: &Self) -> (r: u64)
        ensures
            r as int == self.dist_sq_spec(*other),
    ;

    /// Computes the representative center of a non-empty list of points.
    fn mean(ps: &Vec<Self>) -> (r: Self)
        requires
            ps@.len() > 0,
        ensures
            r == Self::mean_spec(ps@),
    ;

    /// Decides equality of two points.
    fn eq_point(&self, other: &Self) -> (r: bool)
        ensures
            r == (*self == *other),
    ;

    /// Duplicates a point value.
    fn copy_point(&self) -> (r: Self)
        ensures
            r == *self,
    ;
}

/// The mathematical value of a cluster: its centroid and, in input order,
/// the points assigned to it.
#[verifier::ext_equal]
pub struct ClusterView<P> {
    pub centroid: P,
    pub members: Seq<P>,
}

/// A clustering of `points` around a `centroid`.
pub struct Cluster<P: DataPoint> {
    pub centroid: P,
    pub points: Vec<P>,
}

impl<P: DataPoint> View for Cluster<P> {
    type V = ClusterView<P>;

    open spec fn view(&self) -> ClusterView<P> {
        ClusterView { centroid: self.centroid, members: self.points@ }
    }
}

impl<P: DataPoint> Cluster<P> {
    /// A fresh cluster around `centroid` with no members yet.
    pub fn new(centroid: &P) -> (r: Self)
        ensures
            r.centroid == *centroid,
            r.points@ == Seq::<P>::empty(),
    {
        Cluster { centroid: centroid.copy_point(), points: Vec::new() }
    }

    /// Resolves an index-based cluster to one that owns its member values.
    pub fn from_intermediate(intermediate: &IntermediateCluster<P>, points: &Vec<P>) -> (r: Self)
        requires
            forall|j: int| 0 <= j < intermediate.point_indices@.len()
                ==> #[trigger] intermediate.point_indices@[j] < points@.len(),
        ensures
            r.centroid == intermediate.centroid,
            r.points@.len() == intermediate.point_indices@.len(),
            forall|j: int| 0 <= j < r.points@.len()
                ==> #[trigger] r.points@[j] == points@[intermediate.point_indices@[j] as int],
    {
        let mut members: Vec<P> = Vec::new();
        let mut i: usize = 0;
        while i < intermediate.point_indices.len()
            invariant
                forall|j: int| 0 <= j < intermediate.point_indices@.len()
                    ==> #[trigger] intermediate.point_indices@[j] < points@.len(),
                i <= intermediate.point_indices@.len(),
                members@.len() == i,
                forall|j: int| 0 <= j < i as int
                    ==> #[trigger] members@[j] == points@[intermediate.point_indices@[j] as int],
            decreases intermediate.point_indices@.len() - i,
        {
            let idx = intermediate.point_indices[i];
            members.push(points[idx].copy_point());
            i = i + 1;
        }
        Cluster { centroid: intermediate.centroid.copy_point(), points: members }
    }

    /// Moves the centroid to the mean of the current members; a cluster
    /// that has no members keeps its previous centroid.
    pub fn recalculate_centroid(&mut self)
        ensures
            final(self).points@ == old(self).points@,
            final(self).centroid == (if old(self).points@.len() > 0 {
                P::mean_spec(old(self).points@)
            } else {
                old(self).centroid
            }),
    {
        if self.points.len() > 0 {
            self.centroid = P::mean(&self.points);
        }
    }

    /// The centroids of a list of clusters, in order.
    pub fn centroids(cs: &Vec<Self>) -> (r: Vec<P>)
        ensures
            r@.len() == cs@.len(),
            forall|j: int| 0 <= j < cs@.len() ==> #[trigger] r@[j] == cs@[j].centroid,
    {
        let mut r: Vec<P> = Vec::new();
        let mut i: usize = 0;
        while i < cs.len()
            invariant
                i <= cs@.len(),
                r@.len() == i,
                forall|j: int| 0 <= j < i as int ==> #[trigger] r@[j] == cs@[j].centroid,
            decreases cs@.len() - i,
        {
            r.push(cs[i].centroid.copy_point());
            i = i + 1;
        }
        r
    }
}

/// A cluster that stores indices into the original point array instead of
/// point values, to avoid cloning large payloads during assignment.
pub struct IntermediateCluster<P: DataPoint> {
    pub centroid: P,
    pub point_indices: Vec<usize>,
}

impl<P: DataPoint> IntermediateCluster<P> {
    /// A fresh index-based cluster around `centroid` with no members yet.
    pub fn new(centroid: &P) -> (r: Self)
        ensures
            r.centroid == *centroid,
            r.point_indices@ == Seq::<usize>::empty(),
    {
        IntermediateCluster { centroid: centroid.copy_point(), point_indices: Vec::new() }
    }
}

} // verus!
